use vstd::prelude::*;

verus! {

/// Adapter type that carries a running sum.
#[derive(Debug, Clone, Copy)]
pub struct Sum<T> {
    pub sum: T,
}

/// Whether one entry strictly beats every other entry.
pub open spec fn has_unique_max(keys: Seq<i8>) -> bool {
    exists|i: int|
        #![trigger keys[i]]
        0 <= i < keys.len() && forall|j: int|
            0 <= j < keys.len() && j != i ==> #[trigger] keys[j] < keys[i]
}

/// Check if there is a plurality winner in a list: the position whose key
/// is strictly higher than every other key, if there is one.
pub fn unique_max_by_key(keys: &Vec<i8>) -> (r: Option<usize>)
    ensures
        r is Some <==> has_unique_max(keys@),
        r matches Some(i) ==> 0 <= i < keys@.len() && forall|j: int|
            0 <= j < keys@.len() && j != i ==> #[trigger] keys@[j] < keys@[i as int],
{
    if keys.len() == 0 {
        proof {
            assert(!has_unique_max(keys@));
        }
        return None;
    }
    let mut best: usize = 0;
    let mut unique = true;
    let mut i: usize = 1;
    while i < keys.len()
        invariant
            1 <= i <= keys@.len(),
            0 <= best < i,
            forall|j: int| 0 <= j < i ==> #[trigger] keys@[j] <= keys@[best as int],
            unique <==> forall|j: int|
                0 <= j < i && j != best ==> #[trigger] keys@[j] < keys@[best as int],
        decreases keys@.len() - i,
    {
        if keys[i] > keys[best] {
            best = i;
            unique = true;
        } else if keys[i] == keys[best] {
            unique = false;
        }
        i = i + 1;
    }
    if unique {
        proof {
            let b = best as int;
            assert(0 <= b < keys@.len());
            assert(keys@[b] <= keys@[b]);
            assert(forall|j: int| 0 <= j < keys@.len() && j != b ==> #[trigger] keys@[j] < keys@[b]);
            assert(has_unique_max(keys@));
        }
        Some(best)
    } else {
        proof {
            let w = choose|j: int|
                0 <= j < keys@.len() && j != best && !(#[trigger] keys@[j] < keys@[best as int]);
            assert(keys@[w] == keys@[best as int]);
            assert(!has_unique_max(keys@)) by {
                if has_unique_max(keys@) {
                    let m = choose|m: int|
                        #![trigger keys@[m]]
                        0 <= m < keys@.len() && forall|j: int|
                            0 <= j < keys@.len() && j != m ==> #[trigger] keys@[j] < keys@[m];
                    if m != best as int {
                        assert(keys@[best as int] < keys@[m]);
                        assert(keys@[m] <= keys@[best as int]);
                    } else {
                        assert(keys@[w] < keys@[m]);
                    }
                }
            }
        }
        None
    }
}

} // verus!
