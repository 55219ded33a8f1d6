//! Delta reads of append-only files: the in-memory cursor, the carry of
//! a trailing partial line across polls, and the law that complete lines
//! come out exactly once.

use vstd::prelude::*;

verus! {

/// Segments of `s` between newline bytes, in order.  The last segment is
/// the text after the final newline, possibly empty; a trailing newline
/// thus yields an empty last segment.
pub open spec fn split_lines(s: Seq<u8>) -> Seq<Seq<u8>>
    decreases s.len(),
{
    if s.len() == 0 {
        seq![Seq::<u8>::empty()]
    } else {
        let prev = split_lines(s.drop_last());
        if s.last() == 10 {
            prev.push(Seq::<u8>::empty())
        } else {
            prev.update(prev.len() - 1, prev.last().push(s.last()))
        }
    }
}

/// The segments of `segs` that are not empty, in order.
pub open spec fn keep_nonempty(segs: Seq<Seq<u8>>) -> Seq<Seq<u8>>
    decreases segs.len(),
{
    if segs.len() == 0 {
        Seq::empty()
    } else {
        let rest = keep_nonempty(segs.drop_last());
        if segs.last().len() == 0 {
            rest
        } else {
            rest.push(segs.last())
        }
    }
}

/// The complete non-empty lines of `s`: every non-empty segment before
/// the final (incomplete) one.
pub open spec fn complete_lines(s: Seq<u8>) -> Seq<Seq<u8>> {
    keep_nonempty(split_lines(s).drop_last())
}

/// The trailing segment of `s`, after its last newline.
pub open spec fn last_seg(s: Seq<u8>) -> Seq<u8> {
    split_lines(s).last()
}

pub proof fn lemma_split_len_pos(s: Seq<u8>)
    ensures
        split_lines(s).len() >= 1,
    decreases s.len(),
{
    if s.len() > 0 {
        lemma_split_len_pos(s.drop_last());
    }
}

/// The trailing segment holds no newline byte.
pub proof fn lemma_last_seg_no_newline(s: Seq<u8>)
    ensures
        forall|i: int| 0 <= i < last_seg(s).len() ==> last_seg(s)[i] != 10,
    decreases s.len(),
{
    lemma_split_len_pos(s);
    if s.len() > 0 {
        lemma_last_seg_no_newline(s.drop_last());
        lemma_split_len_pos(s.drop_last());
        let prev = split_lines(s.drop_last());
        if s.last() == 10 {
            assert(last_seg(s) =~= Seq::<u8>::empty());
        } else {
            assert(split_lines(s) == prev.update(prev.len() - 1, prev.last().push(s.last())));
            assert(last_seg(s) == prev.last().push(s.last()));
            assert(last_seg(s.drop_last()) == prev.last());
            assert forall|i: int| 0 <= i < prev.last().len() implies prev.last()[i] != 10 by {
                assert(last_seg(s.drop_last())[i] != 10);
            }
        }
    }
}

/// A text without newlines is one single segment.
pub proof fn lemma_split_no_newline(q: Seq<u8>)
    requires
        forall|i: int| 0 <= i < q.len() ==> q[i] != 10,
    ensures
        split_lines(q) == seq![q],
    decreases q.len(),
{
    if q.len() == 0 {
        assert(split_lines(q) =~~= seq![q]);
    } else {
        lemma_split_no_newline(q.drop_last());
        assert(q.drop_last().push(q.last()) =~= q);
        assert(split_lines(q) =~~= seq![q]);
    }
}

/// Complete lines come out exactly once: reading a growth `c` after `s`,
/// with the trailing partial segment of `s` carried over, yields exactly
/// the complete lines of `s + c` that were not yet complete in `s` — no
/// line is lost, repeated, or split in two.
pub proof fn lemma_lines_exactly_once(s: Seq<u8>, c: Seq<u8>)
    ensures
        complete_lines(s + c) == complete_lines(s) + complete_lines(last_seg(s) + c),
        last_seg(s + c) == last_seg(last_seg(s) + c),
    decreases c.len(),
{
    let q = last_seg(s);
    lemma_split_len_pos(s);
    if c.len() == 0 {
        assert(s + c =~= s);
        assert(q + c =~= q);
        lemma_last_seg_no_newline(s);
        lemma_split_no_newline(q);
        assert(complete_lines(q) =~= Seq::<Seq<u8>>::empty());
        assert(complete_lines(s) + complete_lines(q) =~= complete_lines(s));
    } else {
        let c0 = c.drop_last();
        let b = c.last();
        lemma_lines_exactly_once(s, c0);
        let t = s + c0;
        let u = q + c0;
        assert(s + c =~= t.push(b));
        assert(q + c =~= u.push(b));
        assert(t.push(b).drop_last() =~= t);
        assert(u.push(b).drop_last() =~= u);
        lemma_split_len_pos(t);
        lemma_split_len_pos(u);
        if b == 10 {
            assert(split_lines(t.push(b)) == split_lines(t).push(Seq::<u8>::empty()));
            assert(split_lines(u.push(b)) == split_lines(u).push(Seq::<u8>::empty()));
            assert(split_lines(t.push(b)).drop_last() =~= split_lines(t));
            assert(split_lines(u.push(b)).drop_last() =~= split_lines(u));
            // the previous trailing segments become complete in both views
            assert(split_lines(t) =~= split_lines(t).drop_last().push(last_seg(t)));
            assert(split_lines(u) =~= split_lines(u).drop_last().push(last_seg(u)));
            assert(complete_lines(t.push(b)) == keep_nonempty(
                split_lines(t).drop_last().push(last_seg(t)),
            ));
            assert(complete_lines(u.push(b)) == keep_nonempty(
                split_lines(u).drop_last().push(last_seg(u)),
            ));
            assert(split_lines(t).drop_last().push(last_seg(t)).drop_last() =~= split_lines(
                t,
            ).drop_last());
            assert(split_lines(u).drop_last().push(last_seg(u)).drop_last() =~= split_lines(
                u,
            ).drop_last());
            if last_seg(t).len() == 0 {
                assert(complete_lines(t.push(b)) == complete_lines(t));
                assert(complete_lines(u.push(b)) == complete_lines(u));
            } else {
                assert(complete_lines(t.push(b)) == complete_lines(t).push(last_seg(t)));
                assert(complete_lines(u.push(b)) == complete_lines(u).push(last_seg(u)));
            }
            assert(complete_lines(s + c) =~= complete_lines(s) + complete_lines(q + c));
            assert(last_seg(s + c) == last_seg(q + c));
        } else {
            let nt = split_lines(t);
            let nu = split_lines(u);
            assert(split_lines(t.push(b)) == nt.update(nt.len() - 1, nt.last().push(b)));
            assert(split_lines(u.push(b)) == nu.update(nu.len() - 1, nu.last().push(b)));
            assert(split_lines(t.push(b)).drop_last() =~= nt.drop_last());
            assert(split_lines(u.push(b)).drop_last() =~= nu.drop_last());
            assert(complete_lines(t.push(b)) == complete_lines(t));
            assert(complete_lines(u.push(b)) == complete_lines(u));
            assert(complete_lines(s + c) =~= complete_lines(s) + complete_lines(q + c));
            assert(last_seg(t.push(b)) == nt.last().push(b));
            assert(last_seg(u.push(b)) == nu.last().push(b));
        }
    }
}

/// Where to resume reading an append-only file: the byte offset already
/// consumed, and the trailing partial line carried to the next poll.
pub struct TailCursor {
    pub offset: u64,
    pub partial: Vec<u8>,
}

impl TailCursor {
    /// A cursor at the start of a file.
    pub fn new() -> (r: TailCursor)
        ensures
            r.offset == 0,
            r.partial@.len() == 0,
    {
        TailCursor { offset: 0, partial: Vec::new() }
    }

    /// Decide what to read for a file that now has `file_len` bytes:
    /// reset on truncation, nothing when there is no growth, otherwise
    /// the start offset, pulled forward so that at most `max_bytes` are
    /// read (older bytes of a large gap are abandoned).
    pub fn prepare_read(&mut self, file_len: u64, max_bytes: u64) -> (r: Option<u64>)
        ensures
            file_len < old(self).offset ==> final(self).offset == 0
                && final(self).partial@.len() == 0,
            file_len >= old(self).offset ==> *final(self) == *old(self),
            ({
                let eff: int = if file_len < old(self).offset {
                    0
                } else {
                    old(self).offset as int
                };
                match r {
                    None => file_len == eff,
                    Some(start) => file_len > eff && start as int == if file_len - eff
                        > max_bytes {
                        file_len - max_bytes
                    } else {
                        eff
                    },
                }
            }),
    {
        if file_len < self.offset {
            // the file shrank: it was truncated or rotated, start over
            self.offset = 0;
            self.partial = Vec::new();
        }
        if file_len == self.offset {
            return None;
        }
        let mut start = self.offset;
        if file_len - self.offset > max_bytes {
            start = file_len - max_bytes;
        }
        Some(start)
    }

    /// Take in the bytes read from the file: prepend the carried partial
    /// line, hand back every complete non-empty line in order, keep the
    /// new trailing partial line, and advance the cursor.
    #[verifier::loop_isolation(false)]
    pub fn consume(&mut self, chunk: &Vec<u8>, new_offset: u64) -> (r: Vec<Vec<u8>>)
        ensures
            final(self).offset == new_offset,
            final(self).partial@ == last_seg(old(self).partial@ + chunk@),
            r.deep_view() == complete_lines(old(self).partial@ + chunk@),
    {
        let ghost all_s = self.partial@ + chunk@;
        self.offset = new_offset;

        let mut all: Vec<u8> = Vec::new();
        let mut i: usize = 0;
        while i < self.partial.len()
            invariant
                i <= self.partial@.len(),
                all@ == self.partial@.take(i as int),
            decreases self.partial@.len() - i,
        {
            all.push(self.partial[i]);
            proof {
                assert(all@ =~= self.partial@.take(i as int + 1));
            }
            i += 1;
        }
        let mut j: usize = 0;
        while j < chunk.len()
            invariant
                j <= chunk@.len(),
                all@ == self.partial@.take(self.partial@.len() as int) + chunk@.take(j as int),
            decreases chunk@.len() - j,
        {
            all.push(chunk[j]);
            proof {
                assert(all@ =~= self.partial@.take(self.partial@.len() as int) + chunk@.take(
                    j as int + 1,
                ));
            }
            j += 1;
        }
        proof {
            assert(all@ =~= all_s);
        }

        let mut lines: Vec<Vec<u8>> = Vec::new();
        let mut cur: Vec<u8> = Vec::new();
        let mut i: usize = 0;
        proof {
            assert(all_s.take(0) =~= Seq::<u8>::empty());
        }
        while i < all.len()
            invariant
                i <= all_s.len(),
                all@ == all_s,
                split_lines(all_s.take(i as int)).len() >= 1,
                cur@ == last_seg(all_s.take(i as int)),
                lines.deep_view() == keep_nonempty(split_lines(all_s.take(i as int)).drop_last()),
            decreases all_s.len() - i,
        {
            let b = all[i];
            let ghost segs = split_lines(all_s.take(i as int));
            proof {
                assert(all_s.take(i as int + 1).drop_last() =~= all_s.take(i as int));
                assert(all_s.take(i as int + 1).last() == all_s[i as int]);
                lemma_split_len_pos(all_s.take(i as int + 1));
            }
            if b == 10 {
                proof {
                    assert(split_lines(all_s.take(i as int + 1)) == segs.push(
                        Seq::<u8>::empty(),
                    ));
                    assert(split_lines(all_s.take(i as int + 1)).drop_last() =~= segs);
                    assert(segs =~= segs.drop_last().push(cur@));
                    assert(segs.drop_last().push(cur@).drop_last() =~= segs.drop_last());
                }
                if cur.len() > 0 {
                    let ghost pre = lines.deep_view();
                    lines.push(cur);
                    proof {
                        assert(lines.deep_view() =~~= pre.push(cur@));
                    }
                } else {
                    proof {
                        assert(keep_nonempty(segs) == lines.deep_view());
                    }
                }
                cur = Vec::new();
            } else {
                proof {
                    assert(split_lines(all_s.take(i as int + 1)) == segs.update(
                        segs.len() - 1,
                        segs.last().push(b),
                    ));
                    assert(split_lines(all_s.take(i as int + 1)).drop_last() =~= segs.drop_last());
                    assert(split_lines(all_s.take(i as int + 1)).last() == cur@.push(b));
                }
                cur.push(b);
            }
            i += 1;
        }
        proof {
            assert(all_s.take(all_s.len() as int) =~= all_s);
        }
        self.partial = cur;
        lines
    }
}

/// Every non-empty line of a whole text, the unterminated final line
/// included.
pub open spec fn all_lines(s: Seq<u8>) -> Seq<Seq<u8>> {
    keep_nonempty(split_lines(s))
}

/// The last `n` non-empty lines of a whole text, in file order: what a
/// startup backfill replays before delta reads take over.
#[verifier::loop_isolation(false)]
pub fn tail_lines(content: &Vec<u8>, n: usize) -> (r: Vec<Vec<u8>>)
    ensures
        ({
            let al = all_lines(content@);
            r.deep_view() == al.skip(
                if al.len() <= n {
                    0
                } else {
                    al.len() - n
                },
            )
        }),
{
    let ghost sp = split_lines(content@);
    let ghost ls = last_seg(content@);
    let ghost al = all_lines(content@);
    let mut cursor = TailCursor::new();
    let mut lines = cursor.consume(content, 0);
    proof {
        assert(Seq::<u8>::empty() + content@ =~= content@);
        lemma_split_len_pos(content@);
        assert(sp =~= sp.drop_last().push(ls));
        assert(sp.drop_last().push(ls).drop_last() =~= sp.drop_last());
        assert(sp.drop_last().push(ls).last() == ls);
        assert(al == if ls.len() == 0 {
            keep_nonempty(sp.drop_last())
        } else {
            keep_nonempty(sp.drop_last()).push(ls)
        });
        assert(cursor.partial@ == ls);
        assert(lines.deep_view() == keep_nonempty(sp.drop_last()));
    }
    if cursor.partial.len() > 0 {
        let ghost pre = lines.deep_view();
        lines.push(cursor.partial);
        proof {
            assert(lines.deep_view() =~~= pre.push(ls));
            assert(lines.deep_view() == al);
        }
    } else {
        proof {
            assert(lines.deep_view() == al);
        }
    }
    let ghost mut k: int = 0;
    proof {
        assert(al.skip(0) =~= al);
    }
    while lines.len() > n
        invariant
            0 <= k <= al.len(),
            k + lines.deep_view().len() == al.len(),
            lines.deep_view() == al.skip(k),
            k > 0 ==> lines.deep_view().len() >= n,
        decreases lines@.len(),
    {
        let ghost pre_view = lines@;
        let ghost pre_dv = lines.deep_view();
        lines.remove(0);
        proof {
            assert(forall|j: int| 0 <= j < lines@.len() ==> lines@[j] == pre_view[j + 1]);
            assert(forall|j: int|
                0 <= j < lines@.len() ==> #[trigger] lines.deep_view()[j] == pre_dv[j + 1]);
            k = k + 1;
            assert(lines.deep_view() =~= al.skip(k));
        }
    }
    lines
}

} // verus!
