use fleurs::symbol::{demangle_itanium_function_name, demangle_msvc_function_name, symbol_addr};

#[test]
fn itanium_names_demangle() {
    // the demangler must transform a mangled name, not hand it back
    let demangled = demangle_itanium_function_name("_ZN5space3fooEibc");
    assert_eq!(demangled, "space::foo(int, bool, char)");
}

#[test]
fn unparseable_names_pass_through() {
    assert_eq!(demangle_itanium_function_name("main"), "main");
    assert_eq!(demangle_itanium_function_name(""), "");
}

#[test]
fn msvc_names_demangle() {
    assert_eq!(
        demangle_msvc_function_name("?isAdmin@Player@Star@@QEBA_NXZ"),
        "Star::Player::isAdmin"
    );
    // a name without a mangling marker passes through
    assert_eq!(demangle_msvc_function_name("plain_name"), "plain_name");
    // a name with no namespace keeps only the separator and the function
    assert_eq!(demangle_msvc_function_name("?f"), "::f");
}

#[test]
fn symbol_lookup_matches_by_prefix() {
    let symbols = vec![
        ("alpha::one()".to_string(), 10u64),
        ("beta::two()".to_string(), 20u64),
        ("beta::three()".to_string(), 30u64),
    ];
    assert_eq!(symbol_addr(&symbols, "beta::two"), Some(20));
    assert_eq!(symbol_addr(&symbols, "beta::"), Some(20));
    assert_eq!(symbol_addr(&symbols, "gamma"), None);
    assert_eq!(symbol_addr(&symbols, ""), Some(10));
}
