//! Verified kernels of a set of small microbenchmarks: array sum and
//! reversal, Fibonacci numbers, a prime sieve, and string building with
//! overlapping substring counting, together with the whole-millisecond
//! duration arithmetic their timing reports use.

pub mod arrays;
pub mod fib;
pub mod primes;
pub mod strings;
pub mod timing;
