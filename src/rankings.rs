//! The designer's rankings: for each of the four attributes, the characters
//! from strongest to weakest. Characters are the indices `0..n`.
use vstd::prelude::*;

verus! {

/// The largest character universe the engine takes. Every fitness component
/// then fits in an `i32` with a wide margin (the rank score is at most
/// 4 * 4096 * 4096); the bound is tighter than the `i32` alone would need,
/// and it also keeps the quadratic validation of an input cheap.
pub const MAX_CHARACTERS: usize = 4096;

/// `s` lists each of the characters `0..n` exactly once.
pub open spec fn is_order(s: Seq<usize>, n: nat) -> bool {
    &&& s.len() == n
    &&& forall|i: int| 0 <= i < s.len() ==> #[trigger] s[i] < n
    &&& forall|i: int, j: int| 0 <= i < j < s.len() ==> s[i] != s[j]
}

/// Four orders over one non-empty character universe of at most
/// `MAX_CHARACTERS` characters.
pub open spec fn valid_orders(o: Seq<Vec<usize>>) -> bool {
    &&& o.len() == 4
    &&& 1 <= o[0]@.len() <= MAX_CHARACTERS
    &&& forall|a: int| 0 <= a < 4 ==> is_order(#[trigger] o[a]@, o[0]@.len())
}

/// A validated ranking input: `orders[a]` lists the characters for attribute
/// `a` (Might, Speed, Know, Sanity) in the designer's rank order.
pub struct Rankings {
    pub orders: Vec<Vec<usize>>,
}

impl Rankings {
    pub open spec fn count(&self) -> nat {
        self.orders@[0]@.len()
    }

    pub open spec fn wf(&self) -> bool {
        valid_orders(self.orders@)
    }

    /// The designer's order for attribute `a`.
    pub open spec fn order(&self, a: int) -> Seq<usize> {
        self.orders@[a]@
    }

    /// Accepts exactly the inputs of four orders over one non-empty universe
    /// of at most `MAX_CHARACTERS` characters.
    pub fn new(orders: Vec<Vec<usize>>) -> (r: Option<Rankings>)
        ensures
            r.is_some() <==> valid_orders(orders@),
            r.is_some() ==> r.unwrap().orders@ == orders@,
    {
        if orders.len() != 4 {
            return None;
        }
        let n = orders[0].len();
        if n < 1 || n > MAX_CHARACTERS {
            return None;
        }
        let mut a: usize = 0;
        while a < 4
            invariant
                orders@.len() == 4,
                n == orders@[0]@.len(),
                1 <= n <= MAX_CHARACTERS,
                a <= 4,
                forall|b: int| 0 <= b < a ==> is_order(#[trigger] orders@[b]@, n as nat),
            decreases 4 - a,
        {
            if !is_order_exec(&orders[a], n) {
                return None;
            }
            a += 1;
        }
        Some(Rankings { orders })
    }

    /// The number of characters.
    pub fn character_count(&self) -> (r: usize)
        requires
            self.wf(),
        ensures
            r == self.count(),
    {
        self.orders[0].len()
    }
}

fn is_order_exec(s: &Vec<usize>, n: usize) -> (r: bool)
    ensures
        r == is_order(s@, n as nat),
{
    if s.len() != n {
        return false;
    }
    let mut i: usize = 0;
    while i < s.len()
        invariant
            i <= s@.len(),
            forall|k: int| 0 <= k < i ==> #[trigger] s@[k] < n,
            forall|k: int, j: int| 0 <= k < j < i ==> s@[k] != s@[j],
        decreases s@.len() - i,
    {
        if s[i] >= n {
            return false;
        }
        let mut j: usize = 0;
        while j < i
            invariant
                i < s@.len(),
                j <= i,
                forall|k: int| 0 <= k < j ==> s@[k] != s@[i as int],
            decreases i - j,
        {
            if s[j] == s[i] {
                return false;
            }
            j += 1;
        }
        i += 1;
    }
    true
}

} // verus!
