pub mod vlq;
