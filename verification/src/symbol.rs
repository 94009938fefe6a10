use vstd::prelude::*;
use vstd::string::StrSliceExecFns;

verus! {

/// What the Itanium-ABI demangler prints for a mangled name, or the
/// name itself where it does not parse.
pub uninterp spec fn itanium_demangled(name: Seq<char>) -> Seq<char>;

/// Relies on `cpp_demangle::Symbol::new` and `Symbol::demangle`: the
/// demangled form of a symbol name, or the name unchanged where it
/// does not parse or render.  The result depends on the name alone.
#[verifier::external_body]
pub fn demangle_itanium_function_name(name: &str) -> (r: String)
    ensures
        r@ == itanium_demangled(name@),
{
    match cpp_demangle::Symbol::new(name) {
        Ok(symbol) => symbol.demangle().unwrap_or_else(|_| name.to_string()),
        Err(_) => name.to_string(),
    }
}

/// The characters of `prefix` open `s`.
pub open spec fn seq_starts_with(s: Seq<char>, prefix: Seq<char>) -> bool {
    prefix.len() <= s.len() && s.subrange(0, prefix.len() as int) == prefix
}

/// The characters of `prefix` open `s`.
#[verifier::loop_isolation(false)]
fn str_starts_with(s: &str, prefix: &str) -> (r: bool)
    ensures
        r == seq_starts_with(s@, prefix@),
{
    let slen = s.unicode_len();
    let plen = prefix.unicode_len();
    if plen > slen {
        return false;
    }
    let mut i: usize = 0;
    while i < plen
        invariant
            0 <= i <= plen,
            plen <= slen,
            plen == prefix@.len(),
            slen == s@.len(),
            forall|j: int| 0 <= j < i ==> s@[j] == prefix@[j],
        decreases plen - i,
    {
        if s.get_char(i) != prefix.get_char(i) {
            assert(s@.subrange(0, plen as int)[i as int] != prefix@[i as int]);
            return false;
        }
        i = i + 1;
    }
    assert(s@.subrange(0, plen as int) =~= prefix@);
    true
}

/// The address recorded for the first symbol whose name `name` opens,
/// if any symbol's name starts with it.
#[verifier::loop_isolation(false)]
pub fn symbol_addr(symbols: &Vec<(String, u64)>, name: &str) -> (r: Option<u64>)
    ensures
        match r {
            Some(addr) => exists|i: int|
                {
                    &&& 0 <= i < symbols@.len()
                    &&& seq_starts_with((#[trigger] symbols@[i]).0@, name@)
                    &&& symbols@[i].1 == addr
                    &&& forall|j: int| 0 <= j < i ==> !seq_starts_with(
                        (#[trigger] symbols@[j]).0@,
                        name@,
                    )
                },
            None => forall|i: int| 0 <= i < symbols@.len() ==> !seq_starts_with(
                (#[trigger] symbols@[i]).0@,
                name@,
            ),
        },
{
    let mut i: usize = 0;
    while i < symbols.len()
        invariant
            0 <= i <= symbols@.len(),
            forall|j: int| 0 <= j < i ==> !seq_starts_with((#[trigger] symbols@[j]).0@, name@),
        decreases symbols@.len() - i,
    {
        let entry = &symbols[i];
        if str_starts_with(entry.0.as_str(), name) {
            return Some(symbols[i].1);
        }
        i = i + 1;
    }
    None
}


/// `s` without its leading question marks.
pub open spec fn strip_marks(s: Seq<char>) -> Seq<char>
    decreases s.len(),
{
    if s.len() > 0 && s[0] == '?' {
        strip_marks(s.drop_first())
    } else {
        s
    }
}

/// Dropping a run of leading question marks is stripping, once none is
/// left in front.
proof fn lemma_strip_marks(s: Seq<char>, i: int)
    requires
        0 <= i <= s.len(),
        forall|j: int| 0 <= j < i ==> s[j] == '?',
        i == s.len() || s[i] != '?',
    ensures
        strip_marks(s) == s.subrange(i, s.len() as int),
    decreases i,
{
    if i == 0 {
        assert(s.subrange(0, s.len() as int) =~= s);
        if s.len() > 0 {
            assert(s[0] != '?');
        }
    } else {
        assert(s[0] == '?');
        let t = s.drop_first();
        assert(t =~= s.subrange(1, s.len() as int));
        lemma_strip_marks(t, i - 1);
        assert(t.subrange(i - 1, t.len() as int) =~= s.subrange(i, s.len() as int));
    }
}

/// The position of the first separator at or after `i`, or the end.
pub open spec fn find_sep(s: Seq<char>, i: int) -> int
    decreases s.len() - i,
{
    if i < 0 || i >= s.len() {
        s.len() as int
    } else if s[i] == '@' {
        i
    } else {
        find_sep(s, i + 1)
    }
}

/// A separator-free run ending at the end or at a separator pins down
/// where the first separator stands.
proof fn lemma_find_sep(s: Seq<char>, a: int, b: int)
    requires
        0 <= a <= b <= s.len(),
        forall|j: int| a <= j < b ==> s[j] != '@',
        b == s.len() || s[b] == '@',
    ensures
        find_sep(s, a) == b,
    decreases b - a,
{
    if a < b {
        assert(s[a] != '@');
        lemma_find_sep(s, a + 1, b);
    }
}

/// The segments of `s` between separators, from the segment starting
/// at `i` on: splitting never yields fewer than one segment.
pub open spec fn split_segs(s: Seq<char>, i: int) -> Seq<Seq<char>>
    decreases s.len() - i + 1,
{
    if i < 0 || i > s.len() {
        Seq::<Seq<char>>::empty()
    } else {
        let j = find_sep(s, i);
        if j < i || j >= s.len() {
            seq![s.subrange(i, s.len() as int)]
        } else {
            seq![s.subrange(i, j)] + split_segs(s, j + 1)
        }
    }
}

/// The longest run of non-empty segments from index `i` on.
pub open spec fn take_nonempty(segs: Seq<Seq<char>>, i: int) -> Seq<Seq<char>>
    decreases segs.len() - i,
{
    if i < 0 || i >= segs.len() || segs[i].len() == 0 {
        Seq::<Seq<char>>::empty()
    } else {
        seq![segs[i]] + take_nonempty(segs, i + 1)
    }
}

/// A run of non-empty segments ending at the end or at an empty
/// segment is exactly what taking non-empty segments keeps.
proof fn lemma_take_nonempty(segs: Seq<Seq<char>>, i: int, k: int)
    requires
        0 <= i <= k <= segs.len(),
        forall|j: int| i <= j < k ==> (#[trigger] segs[j]).len() != 0,
        k == segs.len() || segs[k].len() == 0,
    ensures
        take_nonempty(segs, i) == segs.subrange(i, k),
    decreases k - i,
{
    if i == k {
        assert(segs.subrange(i, k) =~= Seq::<Seq<char>>::empty());
    } else {
        lemma_take_nonempty(segs, i + 1, k);
        assert(seq![segs[i]] + segs.subrange(i + 1, k) =~= segs.subrange(i, k));
    }
}

/// The parts joined by `::` in reverse order, the last part first.
pub open spec fn join_reversed(parts: Seq<Seq<char>>) -> Seq<char>
    decreases parts.len(),
{
    if parts.len() == 0 {
        Seq::<char>::empty()
    } else if parts.len() == 1 {
        parts[0]
    } else {
        parts.last() + seq![':', ':'] + join_reversed(parts.drop_last())
    }
}

/// What the manual demangler prints for one raw name: a name that does
/// not open with a question mark passes through; otherwise the marks
/// are stripped, the rest splits at separators, and the result is the
/// leading run of non-empty namespace segments after the first, in
/// reverse, joined and followed by the first segment.
pub open spec fn msvc_demangled(s: Seq<char>) -> Seq<char> {
    if !(s.len() > 0 && s[0] == '?') {
        s
    } else {
        let segs = split_segs(strip_marks(s), 0);
        join_reversed(take_nonempty(segs, 1)) + seq![':', ':'] + segs[0]
    }
}

/// The characters of each string, in order.
pub open spec fn strs_view(v: Seq<String>) -> Seq<Seq<char>> {
    Seq::new(v.len(), |i: int| v[i]@)
}

/// `path` without its leading question marks.
#[verifier::loop_isolation(false)]
fn trim_marks(path: &str) -> (r: &str)
    ensures
        r@ == strip_marks(path@),
{
    let len = path.unicode_len();
    let mut i: usize = 0;
    while i < len
        invariant
            0 <= i <= len,
            len == path@.len(),
            forall|j: int| 0 <= j < i ==> path@[j] == '?',
        decreases len - i,
    {
        if path.get_char(i) != '?' {
            break ;
        }
        i = i + 1;
    }
    assert(i == len || path@[i as int] != '?');
    proof {
        lemma_strip_marks(path@, i as int);
    }
    path.substring_char(i, len)
}

/// The segments of `s` between separators, each as its own string.
#[verifier::loop_isolation(false)]
fn split_segments(s: &str) -> (r: Vec<String>)
    ensures
        strs_view(r@) == split_segs(s@, 0),
        r@.len() >= 1,
{
    let len = s.unicode_len();
    let mut out: Vec<String> = Vec::new();
    let mut start: usize = 0;
    let mut i: usize = 0;
    while i < len
        invariant
            0 <= start <= i <= len,
            len == s@.len(),
            forall|j: int| start <= j < i ==> s@[j] != '@',
            start == 0 || s@[start - 1] == '@',
            split_segs(s@, 0) == strs_view(out@) + split_segs(s@, start as int),
        decreases len - i,
    {
        if s.get_char(i) == '@' {
            let ghost out0 = out@;
            let segment = s.substring_char(start, i).to_owned();
            out.push(segment);
            proof {
                lemma_find_sep(s@, start as int, i as int);
                assert(split_segs(s@, start as int) == seq![s@.subrange(start as int, i as int)]
                    + split_segs(s@, i + 1));
                assert(strs_view(out@) =~= strs_view(out0) + seq![
                    s@.subrange(start as int, i as int),
                ]);
                assert(strs_view(out@) + split_segs(s@, i + 1) =~= strs_view(out0) + split_segs(
                    s@,
                    start as int,
                ));
            }
            start = i + 1;
        }
        i = i + 1;
    }
    let ghost out0 = out@;
    let tail = s.substring_char(start, len).to_owned();
    out.push(tail);
    proof {
        lemma_find_sep(s@, start as int, len as int);
        assert(split_segs(s@, start as int) == seq![s@.subrange(start as int, len as int)]);
        assert(strs_view(out@) =~= strs_view(out0) + seq![s@.subrange(start as int, len as int)]);
        assert(strs_view(out@) =~= split_segs(s@, 0));
    }
    out
}

/// What the manual demangler prints for one raw name: the reversed
/// run of non-empty namespace segments, joined and followed by the
/// function segment.
#[verifier::loop_isolation(false)]
pub fn demangle_msvc_function_name(name: &str) -> (r: String)
    ensures
        r@ == msvc_demangled(name@),
{
    proof {
        reveal_strlit("::");
        assert("::"@ =~= seq![':', ':']);
    }
    let len = name.unicode_len();
    if len == 0 || name.get_char(0) != '?' {
        return name.to_owned();
    }
    let trimmed = trim_marks(name);
    let segs = split_segments(trimmed);
    let ghost sv = strs_view(segs@);
    let mut k: usize = 1;
    while k < segs.len() && !segs[k].as_str().is_empty()
        invariant
            1 <= k <= segs@.len(),
            forall|j: int| 1 <= j < k ==> (#[trigger] sv[j]).len() != 0,
        decreases segs@.len() - k,
    {
        k = k + 1;
    }
    proof {
        lemma_take_nonempty(sv, 1, k as int);
    }
    let ghost parts = sv.subrange(1, k as int);
    let mut out = String::new();
    let mut i: usize = k;
    while i > 1
        invariant
            1 <= i <= k <= segs@.len(),
            out@ + join_reversed(sv.subrange(1, i as int)) == join_reversed(
                sv.subrange(1, k as int),
            ),
        decreases i,
    {
        i = i - 1;
        out.append(segs[i].as_str());
        if i > 1 {
            out.append("::");
        }
        proof {
            let shorter = sv.subrange(1, i as int);
            let longer = sv.subrange(1, i + 1);
            assert(longer.drop_last() =~= shorter);
            assert(longer.last() == sv[i as int]);
            if i > 1 {
                assert(join_reversed(longer) == sv[i as int] + seq![':', ':'] + join_reversed(
                    shorter,
                ));
            }
            assert(out@ + join_reversed(shorter) =~= join_reversed(sv.subrange(1, k as int)));
        }
    }
    assert(join_reversed(sv.subrange(1, 1)) == Seq::<char>::empty()) by {
        assert(sv.subrange(1, 1) =~= Seq::<Seq<char>>::empty());
    }
    out.append("::");
    out.append(segs[0].as_str());
    proof {
        assert(out@ =~= msvc_demangled(name@));
    }
    out
}

} // verus!
