//! Items that are taken one after the other.

use vstd::prelude::*;

verus! {

/// Items that are taken one after the other, the first one first. They are
/// kept in reverse, so that each is taken without moving the others.
pub(crate) struct Queue<T> {
    reversed: Vec<T>,
}

impl<T> View for Queue<T> {
    type V = Seq<T>;

    closed spec fn view(&self) -> Seq<T> {
        self.reversed@.reverse()
    }
}

impl<T> Queue<T> {
    pub(crate) fn of(items: Vec<T>) -> (r: Self)
        ensures
            r@ == items@,
    {
        let ghost all = items@;
        let n = items.len();
        let mut rest = items;
        let mut reversed: Vec<T> = Vec::new();
        proof {
            assert(all.take(n as int) =~= all);
        }
        while rest.len() > 0
            invariant
                n == all.len(),
                rest@.len() + reversed@.len() == n,
                rest@ == all.take(rest@.len() as int),
                forall|j: int| 0 <= j < reversed@.len() ==> #[trigger] reversed@[j] == all[n - 1 - j],
            decreases rest@.len(),
        {
            let last = rest.len() - 1;
            let item = rest.remove(last);
            proof {
                assert(rest@ =~= all.take(last as int));
            }
            reversed.push(item);
        }
        let r = Queue { reversed };
        proof {
            assert(r@ =~= all);
        }
        r
    }

    /// Takes the first item.
    pub(crate) fn next(&mut self) -> (r: T)
        requires
            old(self)@.len() > 0,
        ensures
            r == old(self)@[0],
            final(self)@ == old(self)@.drop_first(),
    {
        let last = self.reversed.len() - 1;
        let ghost before = self@;
        let item = self.reversed.remove(last);
        proof {
            assert(self@ =~= before.drop_first());
        }
        item
    }
}

} // verus!
