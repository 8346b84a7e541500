use vstd::prelude::*;

use crate::text::{seq_views, split_char, split_spec};
use crate::Error;

verus! {

/// Splitting into an exact number of pieces; any other count is an error.
pub trait SizedSplit where Self: View<V = Seq<char>> {
    fn sized_split<const N: usize>(&self, sep: char) -> (r: Result<Vec<String>, Error>)
        ensures
            r is Ok <==> split_spec(self@, sep).len() == N,
            r matches Ok(parts) ==> seq_views(parts@) == split_spec(self@, sep),
    ;
}

impl SizedSplit for str {
    fn sized_split<const N: usize>(&self, sep: char) -> (r: Result<Vec<String>, Error>) {
        let parts = split_char(self, sep);
        if parts.len() == N {
            Ok(parts)
        } else {
            Err(Error::new("Invalid trigger type "))
        }
    }
}

/// Splitting into at least a number of leading pieces, handing back the
/// leading pieces and whatever follows them.
pub trait LeastSizedSplit where Self: View<V = Seq<char>> {
    fn least_sized_split<const N: usize>(&self, sep: char) -> (r: Result<
        (Vec<String>, Vec<String>),
        Error,
    >)
        ensures
            r is Ok <==> split_spec(self@, sep).len() >= N,
            r matches Ok(p) ==> seq_views(p.0@) == split_spec(self@, sep).take(N as int)
                && seq_views(p.1@) == split_spec(self@, sep).skip(N as int),
    ;
}

impl LeastSizedSplit for str {
    fn least_sized_split<const N: usize>(&self, sep: char) -> (r: Result<
        (Vec<String>, Vec<String>),
        Error,
    >) {
        let mut head = split_char(self, sep);
        if head.len() < N {
            return Err(Error::new("insufficient number of parts"));
        }
        let ghost whole = head@;
        let rest = head.split_off(N);
        proof {
            assert(seq_views(head@) =~= seq_views(whole).take(N as int));
            assert(seq_views(rest@) =~= seq_views(whole).skip(N as int));
        }
        Ok((head, rest))
    }
}

} // verus!
