//! Rolling trend buffers for the sparklines: each holds the latest
//! `HISTORY_LEN` samples, newest at the back.

use std::collections::VecDeque;
use vstd::prelude::*;

verus! {

/// How many samples a trend buffer keeps.
pub const HISTORY_LEN: usize = 120;

/// One push: drop the oldest sample when the buffer is full, then append.
pub open spec fn capped_push<T>(s: Seq<T>, v: T) -> Seq<T> {
    if s.len() >= HISTORY_LEN {
        s.drop_first().push(v)
    } else {
        s.push(v)
    }
}

/// Append `v` to a trend buffer, first dropping the oldest sample when the
/// buffer already holds `HISTORY_LEN`.
pub fn push_capped<T>(buf: &mut VecDeque<T>, v: T)
    ensures
        final(buf)@ == capped_push(old(buf)@, v),
{
    if buf.len() >= HISTORY_LEN {
        buf.pop_front();
    }
    buf.push_back(v);
}

/// The buffer after pushing each of `vs` in turn onto `s`.
pub open spec fn pushes<T>(s: Seq<T>, vs: Seq<T>) -> Seq<T>
    decreases vs.len(),
{
    if vs.len() == 0 {
        s
    } else {
        capped_push(pushes(s, vs.drop_last()), vs.last())
    }
}

/// A buffer that starts with at most `HISTORY_LEN` samples and is fed only
/// through `push_capped` holds exactly the latest `HISTORY_LEN` of all samples
/// (those it started with, then those pushed), in arrival order.
pub proof fn lemma_history_keeps_latest<T>(s: Seq<T>, vs: Seq<T>)
    requires
        s.len() <= HISTORY_LEN,
    ensures
        pushes(s, vs) == (s + vs).skip(
            if s.len() + vs.len() > HISTORY_LEN {
                s.len() + vs.len() - HISTORY_LEN
            } else {
                0
            },
        ),
        pushes(s, vs).len() <= HISTORY_LEN,
    decreases vs.len(),
{
    let all = s + vs;
    let k = if s.len() + vs.len() > HISTORY_LEN {
        s.len() + vs.len() - HISTORY_LEN
    } else {
        0
    };
    if vs.len() == 0 {
        assert(all.skip(0) =~= s);
    } else {
        let vp = vs.drop_last();
        lemma_history_keeps_latest(s, vp);
        let kp = if s.len() + vp.len() > HISTORY_LEN {
            s.len() + vp.len() - HISTORY_LEN
        } else {
            0
        };
        let p = pushes(s, vp);
        assert(p == (s + vp).skip(kp));
        assert((s + vp) =~= all.drop_last());
        if p.len() >= HISTORY_LEN {
            assert(p.drop_first().push(vs.last()) =~= all.skip(k));
        } else {
            assert(p.push(vs.last()) =~= all.skip(k));
        }
    }
}

} // verus!
