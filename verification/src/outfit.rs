pub mod hat;
