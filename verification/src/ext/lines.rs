use vstd::prelude::*;

verus! {

/// Directed searches over a document's lines: the nearest line at or after
/// an index that satisfies a predicate, and the nearest one before it.
pub trait LinesOps where Self: View<V = Seq<String>> {
    fn next_match<F: Fn(&String) -> bool>(&self, index: usize, predicate: F) -> (r: Option<usize>)
        requires
            forall|s: &String| #[trigger] call_requires(predicate, (s,)),
        ensures
            match r {
                Some(k) => index <= k < self@.len() && call_ensures(
                    predicate,
                    (&self@[k as int],),
                    true,
                ) && forall|j: int|
                    index <= j < k ==> #[trigger] call_ensures(predicate, (&self@[j],), false),
                None => forall|j: int|
                    index <= j < self@.len() ==> #[trigger] call_ensures(
                        predicate,
                        (&self@[j],),
                        false,
                    ),
            },
    ;

    fn prev_match<F: Fn(&String) -> bool>(&self, index: usize, predicate: F) -> (r: Option<usize>)
        requires
            forall|s: &String| #[trigger] call_requires(predicate, (s,)),
        ensures
            ({
                let lim = if index as int <= self@.len() {
                    index as int
                } else {
                    self@.len() as int
                };
                match r {
                    Some(k) => 0 <= k < lim && call_ensures(predicate, (&self@[k as int],), true)
                        && forall|j: int|
                        k < j < lim ==> #[trigger] call_ensures(predicate, (&self@[j],), false),
                    None => forall|j: int|
                        0 <= j < lim ==> #[trigger] call_ensures(predicate, (&self@[j],), false),
                }
            }),
    ;
}

impl LinesOps for Vec<String> {
    fn next_match<F: Fn(&String) -> bool>(&self, index: usize, predicate: F) -> (r: Option<usize>) {
        let mut j = index;
        while j < self.len()
            invariant
                index <= j,
                forall|s: &String| #[trigger] call_requires(predicate, (s,)),
                forall|t: int|
                    index <= t < j ==> #[trigger] call_ensures(predicate, (&self@[t],), false),
            decreases self@.len() - j,
        {
            if predicate(&self[j]) {
                return Some(j);
            }
            j = j + 1;
        }
        None
    }

    fn prev_match<F: Fn(&String) -> bool>(&self, index: usize, predicate: F) -> (r: Option<usize>) {
        let mut j = if index <= self.len() {
            index
        } else {
            self.len()
        };
        let ghost lim = j as int;
        while j > 0
            invariant
                lim == (if index as int <= self@.len() {
                    index as int
                } else {
                    self@.len() as int
                }),
                j <= lim <= self@.len(),
                forall|s: &String| #[trigger] call_requires(predicate, (s,)),
                forall|t: int|
                    j <= t < lim ==> #[trigger] call_ensures(predicate, (&self@[t],), false),
            decreases j,
        {
            j = j - 1;
            if predicate(&self[j]) {
                return Some(j);
            }
        }
        None
    }
}

} // verus!
