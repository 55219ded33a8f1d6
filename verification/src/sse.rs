//! The fan-out registry of live-update subscribers.  A subscriber is an
//! outbound channel sender; a broadcast tries every channel and drops
//! the ones that no longer accept, so a gone subscriber never stalls the
//! publisher.

use vstd::prelude::*;

verus! {

#[verifier::external_type_specification]
#[verifier::external_body]
#[verifier::reject_recursive_types(T)]
pub struct ExSender<T>(std::sync::mpsc::Sender<T>);

/// Relies on std::sync::mpsc::Sender::send: delivery succeeds exactly
/// while the receiving half still exists; the outcome depends on the
/// receiver, so only the boolean is promised.
#[verifier::external_body]
fn send_msg(tx: &std::sync::mpsc::Sender<String>, msg: String) -> (r: bool) {
    tx.send(msg).is_ok()
}

/// The subscriber list behind the registry lock.
pub struct SseRegistry {
    pub clients: Vec<std::sync::mpsc::Sender<String>>,
}

impl SseRegistry {
    pub fn new() -> (r: SseRegistry)
        ensures
            r.clients@.len() == 0,
    {
        SseRegistry { clients: Vec::new() }
    }

    /// Add one subscriber's channel.
    pub fn subscribe(&mut self, tx: std::sync::mpsc::Sender<String>)
        ensures
            final(self).clients@ == old(self).clients@.push(tx),
    {
        self.clients.push(tx);
    }

    pub fn client_count(&self) -> (r: usize)
        ensures
            r == self.clients@.len(),
    {
        self.clients.len()
    }

    /// Try to hand `msg` to every subscriber; keep those whose channel
    /// accepted it.  Which channels accept depends on their receivers,
    /// so what holds of every outcome is this: the surviving list is a
    /// subsequence of the old one — relative order kept, no entry
    /// repeated, none added.
    #[verifier::loop_isolation(false)]
    pub fn broadcast(&mut self, msg: &String)
        ensures
            subsequence_of(final(self).clients@, old(self).clients@),
            final(self).clients@.len() <= old(self).clients@.len(),
    {
        let ghost orig = self.clients@;
        let mut kept: Vec<std::sync::mpsc::Sender<String>> = Vec::new();
        let ghost mut k: int = 0;
        proof {
            assert(orig.take(0) =~= Seq::<std::sync::mpsc::Sender<String>>::empty());
        }
        while self.clients.len() > 0
            invariant
                0 <= k <= orig.len(),
                self.clients@ == orig.skip(k),
                subsequence_of(kept@, orig.take(k)),
                kept@.len() <= k,
            decreases self.clients@.len(),
        {
            let ghost pre_clients = self.clients@;
            let tx = self.clients.remove(0);
            proof {
                assert(pre_clients[0] == orig[k]);
                assert(self.clients@ =~= orig.skip(k + 1));
                assert(orig.take(k + 1) =~= orig.take(k).push(orig[k]));
            }
            if send_msg(&tx, msg.clone()) {
                proof {
                    lemma_subseq_push_both(kept@, orig.take(k), orig[k]);
                }
                kept.push(tx);
            } else {
                proof {
                    lemma_subseq_extend(kept@, orig.take(k), orig[k]);
                }
            }
            proof {
                k = k + 1;
            }
        }
        proof {
            assert(orig.take(orig.len() as int) =~= orig);
        }
        self.clients = kept;
    }
}

/// `a` reads within `b` in order: `a` is `b` with some entries left out.
pub open spec fn subsequence_of<T>(a: Seq<T>, b: Seq<T>) -> bool
    decreases a.len() + b.len(),
{
    if a.len() == 0 {
        true
    } else if b.len() == 0 {
        false
    } else if a[0] == b[0] {
        subsequence_of(a.drop_first(), b.drop_first())
    } else {
        subsequence_of(a, b.drop_first())
    }
}

/// A subsequence stays one when the longer list grows at the end.
proof fn lemma_subseq_extend<T>(a: Seq<T>, b: Seq<T>, x: T)
    requires
        subsequence_of(a, b),
    ensures
        subsequence_of(a, b.push(x)),
    decreases a.len() + b.len(),
{
    if a.len() == 0 {
    } else {
        assert(b.len() > 0);
        assert(b.push(x)[0] == b[0]);
        assert(b.push(x).drop_first() =~= b.drop_first().push(x));
        if a[0] == b[0] {
            lemma_subseq_extend(a.drop_first(), b.drop_first(), x);
        } else {
            lemma_subseq_extend(a, b.drop_first(), x);
        }
    }
}

/// Appending the same entry to both lists keeps the relation.
proof fn lemma_subseq_push_both<T>(a: Seq<T>, b: Seq<T>, x: T)
    requires
        subsequence_of(a, b),
    ensures
        subsequence_of(a.push(x), b.push(x)),
    decreases a.len() + b.len(),
{
    if a.len() == 0 {
        lemma_subseq_single_at_end(b, x);
        assert(a.push(x) =~= seq![x]);
    } else {
        assert(b.len() > 0);
        assert(a.push(x)[0] == a[0]);
        assert(b.push(x)[0] == b[0]);
        assert(a.push(x).drop_first() =~= a.drop_first().push(x));
        assert(b.push(x).drop_first() =~= b.drop_first().push(x));
        if a[0] == b[0] {
            lemma_subseq_push_both(a.drop_first(), b.drop_first(), x);
        } else {
            lemma_subseq_push_both(a, b.drop_first(), x);
        }
    }
}

/// A one-entry list is a subsequence of any list ending in that entry.
proof fn lemma_subseq_single_at_end<T>(b: Seq<T>, x: T)
    ensures
        subsequence_of(seq![x], b.push(x)),
    decreases b.len(),
{
    assert(seq![x].drop_first() =~= Seq::<T>::empty());
    if b.len() == 0 {
        assert(b.push(x)[0] == x);
        assert(subsequence_of(Seq::<T>::empty(), b.push(x).drop_first()));
    } else {
        assert(b.push(x)[0] == b[0]);
        assert(b.push(x).drop_first() =~= b.drop_first().push(x));
        if x == b[0] {
            assert(subsequence_of(Seq::<T>::empty(), b.push(x).drop_first()));
        } else {
            lemma_subseq_single_at_end(b.drop_first(), x);
        }
    }
}

} // verus!
