//! File-watcher policy.
//!
//! The OS watcher itself lives with the host; the decisions it needs are
//! here: which event kinds are forwarded on which platform, the common
//! path prefix under which a recursive subscription covers a batch of
//! paths, and whether an already-watched prefix covers a new path.

use vstd::prelude::*;
use crate::paths::{starts_with_str, substring_owned};

verus! {

/// The event kinds the policy distinguishes.
#[derive(Clone, Copy, PartialEq, Eq, Structural, Debug)]
pub enum WatchEventKind {
    /// A data modification event.
    ModifyData,
    /// A file-close event following a write.
    AccessClose,
    /// Any other modification event.
    OtherModify,
    /// Anything else.
    Other,
}

/// The platforms with distinct forwarding policy.
#[derive(Clone, Copy, PartialEq, Eq, Structural, Debug)]
pub enum HostPlatform {
    MacOs,
    Linux,
    Other,
}

/// Which events reach the callback: on macOS only data modifications; on
/// Linux only close-after-write events (a close follows each write);
/// elsewhere any modification event.
pub open spec fn forwards(platform: HostPlatform, kind: WatchEventKind) -> bool {
    match platform {
        HostPlatform::MacOs => kind == WatchEventKind::ModifyData,
        HostPlatform::Linux => kind == WatchEventKind::AccessClose,
        HostPlatform::Other => kind == WatchEventKind::ModifyData || kind
            == WatchEventKind::OtherModify,
    }
}

/// Decides whether an event is forwarded to the change callback.
pub fn should_forward(platform: HostPlatform, kind: WatchEventKind) -> (r: bool)
    ensures
        r == forwards(platform, kind),
{
    match platform {
        HostPlatform::MacOs => matches!(kind, WatchEventKind::ModifyData),
        HostPlatform::Linux => matches!(kind, WatchEventKind::AccessClose),
        HostPlatform::Other => matches!(kind, WatchEventKind::ModifyData | WatchEventKind::OtherModify),
    }
}

/// Length `l` is a subscribable common prefix of the batch: every path
/// extends the first path's first `l` characters, and `l` sits at a
/// separator boundary (or the batch's paths all end exactly there).
pub open spec fn common_bounded_prefix(paths: Seq<String>, l: int) -> bool {
    &&& 0 <= l <= paths[0]@.len()
    &&& forall|i: int|
        0 <= i < paths.len() ==> l <= (#[trigger] paths[i])@.len() && paths[i]@.take(l)
            == paths[0]@.take(l)
    &&& (l == 0 || paths[0]@[l - 1] == '/' || forall|i: int|
        0 <= i < paths.len() ==> (#[trigger] paths[i])@.len() == l)
}

/// The longest common prefix of all paths, cut at a separator boundary:
/// the returned string is a prefix of every path in the batch, and no
/// longer separator-bounded common prefix exists.
pub fn common_watch_prefix(paths: &Vec<String>) -> (r: Option<String>)
    ensures
        match r {
            Some(prefix) => paths@.len() > 0 && common_bounded_prefix(paths@, prefix@.len() as int)
                && prefix@ == paths@[0]@.take(prefix@.len() as int) && (forall|l: int|
                prefix@.len() < l ==> !(#[trigger] common_bounded_prefix(paths@, l))),
            None => paths@.len() == 0,
        },
{
    if paths.len() == 0 {
        return None;
    }
    let first = &paths[0];
    let first_len: usize = first.as_str().unicode_len();
    let mut cl: usize = first_len;
    let mut i: usize = 1;
    while i < paths.len()
        invariant
            1 <= i <= paths@.len(),
            cl <= first_len,
            first_len == paths@[0]@.len(),
            first == &paths@[0],
            forall|t: int| 0 <= t < i ==> cl <= (#[trigger] paths@[t])@.len(),
            forall|t: int|
                0 <= t < i ==> (#[trigger] paths@[t])@.take(cl as int) == paths@[0]@.take(cl as int),
            // the kept length sits at a boundary
            cl == 0 || paths@[0]@[cl - 1] == '/' || forall|t: int|
                0 <= t < i ==> (#[trigger] paths@[t])@.len() == cl,
            // and no longer length is a bounded common prefix of the
            // paths seen so far
            forall|l: int| cl < l ==> !(#[trigger] common_bounded_prefix(paths@.take(i as int), l)),
        decreases paths@.len() - i,
    {
        let other = &paths[i];
        let other_len: usize = other.as_str().unicode_len();
        let mut c: usize = 0;
        let bound: usize = if other_len < cl {
            other_len
        } else {
            cl
        };
        let mut mismatch: bool = false;
        while c < bound && !mismatch
            invariant
                c <= bound,
                bound <= cl <= first_len,
                bound <= other_len,
                first_len == paths@[0]@.len(),
                other_len == other@.len(),
                first == &paths@[0],
                forall|t: int| 0 <= t < c ==> other@[t] == paths@[0]@[t],
                mismatch ==> c < bound && other@[c as int] != paths@[0]@[c as int],
            decreases bound - c, (if mismatch { 0int } else { 1int }),
        {
            if other.as_str().get_char(c) != first.as_str().get_char(c) {
                mismatch = true;
            } else {
                c = c + 1;
            }
        }
        let mut new_cl: usize = 0;
        let mut t: usize = 0;
        // cut back to the last separator boundary within the agreeing part
        while t < c
            invariant
                t <= c,
                c <= bound,
                bound <= cl <= first_len,
                first_len == paths@[0]@.len(),
                first == &paths@[0],
                new_cl <= t,
                new_cl == 0 || paths@[0]@[new_cl - 1] == '/',
                forall|j: int| new_cl <= j < t ==> paths@[0]@[j] != '/',
                forall|j: int| 0 <= j < c ==> other@[j] == paths@[0]@[j],
                other_len == other@.len(),
                bound <= other_len,
            decreases c - t,
        {
            if first.as_str().get_char(t) == '/' {
                new_cl = t + 1;
            }
            t = t + 1;
        }
        if c == other_len && c == cl {
            // the whole candidate agrees; keep it
            new_cl = c;
        }
        let ghost prev_cl = cl;
        cl = new_cl;
        proof {
            assert(cl <= prev_cl);
            assert(cl <= other_len);
            // no longer length survives the paths seen so far
            assert forall|l: int| cl < l implies !(#[trigger] common_bounded_prefix(
                paths@.take(i + 1),
                l,
            )) by {
                if common_bounded_prefix(paths@.take(i + 1), l) {
                    assert(paths@.take(i + 1)[0] == paths@[0]);
                    assert(paths@.take(i + 1)[i as int] == paths@[i as int]);
                    if l > prev_cl {
                        // already refuted on the earlier prefix of the batch
                        assert forall|t: int| 0 <= t < i implies l <= (#[trigger] paths@.take(
                            i as int,
                        )[t])@.len() && paths@.take(i as int)[t]@.take(l) == paths@.take(
                            i as int,
                        )[0]@.take(l) by {
                            assert(paths@.take(i as int)[t] == paths@.take(i + 1)[t]);
                        }
                        if !(l == 0 || paths@[0]@[l - 1] == '/') {
                            assert forall|t: int| 0 <= t < i implies (#[trigger] paths@.take(
                                i as int,
                            )[t])@.len() == l by {
                                assert(paths@.take(i as int)[t] == paths@.take(i + 1)[t]);
                            }
                        }
                        assert(common_bounded_prefix(paths@.take(i as int), l));
                    } else {
                        // cl < l <= prev_cl: the new path or the boundary
                        // refuses it
                        assert(l <= other@.len());
                        assert(other@.take(l) == paths@[0]@.take(l));
                        assert(other@[l - 1] == other@.take(l)[l - 1]);
                        assert(other@[l - 1] == paths@[0]@[l - 1]);
                        if mismatch && l > c {
                            assert(other@.take(l)[c as int] == paths@[0]@.take(l)[c as int]);
                            assert(false);
                        }
                        if !mismatch && l > c {
                            // the scan ran out: c == bound
                            assert(c == bound);
                            assert(false);
                        }
                        if l <= c {
                            // no separator sits in (new_cl, c], and the
                            // all-equal-length escape fails too
                            assert(paths@[0]@[l - 1] != '/');
                            if forall|t: int|
                                0 <= t < i + 1 ==> (#[trigger] paths@.take(i + 1)[t])@.len() == l {
                                assert(paths@.take(i + 1)[0]@.len() == l);
                                assert(paths@.take(i + 1)[i as int]@.len() == l);
                                assert(first_len == l && other_len == l);
                                assert(l == c && c == prev_cl && c == other_len);
                                assert(false);
                            }
                        }
                    }
                }
            }
            assert forall|tt: int| 0 <= tt < i + 1 implies (#[trigger] paths@[tt])@.take(cl as int)
                == paths@[0]@.take(cl as int) by {
                if tt < i {
                    assert(paths@[tt]@.take(prev_cl as int) == paths@[0]@.take(prev_cl as int));
                    assert(paths@[tt]@.take(cl as int) =~= paths@[tt]@.take(prev_cl as int).take(
                        cl as int,
                    ));
                    assert(paths@[0]@.take(cl as int) =~= paths@[0]@.take(prev_cl as int).take(
                        cl as int,
                    ));
                } else {
                    assert(paths@[tt]@.take(cl as int) =~= paths@[0]@.take(cl as int));
                }
            }
        }
        i = i + 1;
    }
    let prefix = substring_owned(first.as_str(), 0, cl);
    proof {
        assert(paths@.take(paths@.len() as int) =~= paths@);
        assert(prefix@ =~= paths@[0]@.take(cl as int));
        assert(common_bounded_prefix(paths@, cl as int));
    }
    Some(prefix)
}

/// Whether one of the watched prefixes already covers `path`.
pub fn covered_by_watched(watched: &Vec<String>, path: &str) -> (r: bool)
    ensures
        r == exists|i: int|
            0 <= i < watched@.len() && path@.len() >= (#[trigger] watched@[i])@.len()
                && path@.take(watched@[i]@.len() as int) == watched@[i]@,
{
    let mut i: usize = 0;
    while i < watched.len()
        invariant
            i <= watched@.len(),
            forall|j: int|
                0 <= j < i ==> !(path@.len() >= (#[trigger] watched@[j])@.len() && path@.take(
                    watched@[j]@.len() as int,
                ) == watched@[j]@),
        decreases watched@.len() - i,
    {
        if starts_with_str(path, watched[i].as_str()) {
            proof {
                assert(path@.len() >= watched@[i as int]@.len() && path@.take(
                    watched@[i as int]@.len() as int,
                ) =~= watched@[i as int]@);
            }
            return true;
        }
        proof {
            assert(path@.take(watched@[i as int]@.len() as int) =~= path@.subrange(
                0,
                watched@[i as int]@.len() as int,
            )) by {
                if path@.len() >= watched@[i as int]@.len() {
                }
            }
        }
        i = i + 1;
    }
    false
}

} // verus!
