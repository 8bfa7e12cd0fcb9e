//! History clean-up: which entries go, oldest first, until the history is
//! back under its item, byte and age limits. Entries whose blobs are being
//! served to a peer right now are never deleted.

use vstd::prelude::*;
use crate::watch::{sat_sub_i64, saturating_sub_i64};
use crate::types::AppSettings;

verus! {

/// Milliseconds in a day.
pub const DAY_MS: i64 = 86_400_000;

/// One history entry as clean-up sees it: id, size in bytes, copy time (ms).
pub open spec fn entry_view(e: (String, u64, i64)) -> (Seq<char>, u64, i64) {
    (e.0@, e.1, e.2)
}

pub open spec fn entries_view(s: Seq<(String, u64, i64)>) -> Seq<(Seq<char>, u64, i64)> {
    s.map_values(|e: (String, u64, i64)| entry_view(e))
}

pub open spec fn ids_view(s: Seq<String>) -> Seq<Seq<char>> {
    s.map_values(|x: String| x@)
}

/// The total size of the entries.
pub open spec fn sum_bytes(rem: Seq<(Seq<char>, u64, i64)>) -> int
    decreases rem.len(),
{
    if rem.len() == 0 {
        0
    } else {
        sum_bytes(rem.drop_last()) + rem.last().1
    }
}

/// Whether an entry copied at `copied_at` is older than the age limit at `now`.
pub open spec fn too_old(copied_at: i64, max_age_days: Option<u32>, now: i64) -> bool {
    match max_age_days {
        Some(d) => sat_sub_i64(now as int, copied_at as int) > d * DAY_MS,
        None => false,
    }
}

/// The limits clean-up enforces.
pub struct Limits {
    pub max_items: u64,
    pub max_bytes: u64,
    pub max_age_days: Option<u32>,
    pub now_ms: i64,
}

/// Whether entry `k` of what is left may go now: it is not being served, and
/// it is too old or the history holds too many entries or bytes.
pub open spec fn eligible(
    rem: Seq<(Seq<char>, u64, i64)>,
    k: int,
    lim: Limits,
    inflight: Seq<Seq<char>>,
) -> bool {
    &&& !inflight.contains(rem[k].0)
    &&& {
        ||| too_old(rem[k].2, lim.max_age_days, lim.now_ms)
        ||| rem.len() > lim.max_items
        ||| sum_bytes(rem) > lim.max_bytes
    }
}

/// The first entry, from index `from` on, that may go.
pub open spec fn first_victim(
    rem: Seq<(Seq<char>, u64, i64)>,
    from: int,
    lim: Limits,
    inflight: Seq<Seq<char>>,
) -> Option<int>
    decreases rem.len() - from,
{
    if from < 0 || from >= rem.len() {
        None
    } else if eligible(rem, from, lim, inflight) {
        Some(from)
    } else {
        first_victim(rem, from + 1, lim, inflight)
    }
}

pub proof fn lemma_first_victim(
    rem: Seq<(Seq<char>, u64, i64)>,
    from: int,
    lim: Limits,
    inflight: Seq<Seq<char>>,
)
    requires
        0 <= from,
    ensures
        first_victim(rem, from, lim, inflight) matches Some(k) ==> from <= k < rem.len()
            && eligible(rem, k, lim, inflight) && forall|j: int|
            from <= j < k ==> !eligible(rem, j, lim, inflight),
        first_victim(rem, from, lim, inflight) is None ==> forall|j: int|
            from <= j < rem.len() ==> !eligible(rem, j, lim, inflight),
    decreases rem.len() - from,
{
    if from < rem.len() && !eligible(rem, from, lim, inflight) {
        lemma_first_victim(rem, from + 1, lim, inflight);
    }
}

/// The entries without those whose id is `id`.
pub open spec fn drop_id(rem: Seq<(Seq<char>, u64, i64)>, id: Seq<char>) -> Seq<
    (Seq<char>, u64, i64),
>
    decreases rem.len(),
{
    if rem.len() == 0 {
        seq![]
    } else {
        let r = drop_id(rem.drop_last(), id);
        if rem.last().0 == id {
            r
        } else {
            r.push(rem.last())
        }
    }
}

pub proof fn lemma_drop_id(rem: Seq<(Seq<char>, u64, i64)>, id: Seq<char>)
    ensures
        drop_id(rem, id).len() <= rem.len(),
        (exists|k: int| 0 <= k < rem.len() && rem[k].0 == id) ==> drop_id(rem, id).len()
            < rem.len(),
        sum_bytes(drop_id(rem, id)) <= sum_bytes(rem),
        forall|k: int|
            0 <= k < drop_id(rem, id).len() ==> drop_id(rem, id)[k].0 != id && rem.contains(
                #[trigger] drop_id(rem, id)[k],
            ),
    decreases rem.len(),
{
    if rem.len() > 0 {
        let p = rem.drop_last();
        lemma_drop_id(p, id);
        lemma_sum_nonneg(p);
        assert(drop_id(p, id).push(rem.last()).drop_last() =~= drop_id(p, id));
        if exists|k: int| 0 <= k < rem.len() && rem[k].0 == id {
            let k = choose|k: int| 0 <= k < rem.len() && rem[k].0 == id;
            if k < rem.len() - 1 {
                assert(p[k] == rem[k]);
            }
        }
        let d = drop_id(rem, id);
        assert forall|k: int| 0 <= k < d.len() implies d[k].0 != id && rem.contains(
            #[trigger] d[k],
        ) by {
            let dp = drop_id(p, id);
            if k < dp.len() {
                assert(d[k] == dp[k]);
                assert(p.contains(dp[k]));
                let j = choose|j: int| 0 <= j < p.len() && p[j] == dp[k];
                assert(rem[j] == p[j]);
            } else {
                assert(d[k] == rem.last());
                assert(rem[rem.len() - 1] == rem.last());
            }
        }
    }
}

pub proof fn lemma_sum_nonneg(rem: Seq<(Seq<char>, u64, i64)>)
    ensures
        sum_bytes(rem) >= 0,
    decreases rem.len(),
{
    if rem.len() > 0 {
        lemma_sum_nonneg(rem.drop_last());
    }
}

pub proof fn lemma_sum_prefix(rem: Seq<(Seq<char>, u64, i64)>, i: int)
    requires
        0 <= i <= rem.len(),
    ensures
        sum_bytes(rem.subrange(0, i)) <= sum_bytes(rem),
    decreases rem.len() - i,
{
    if i < rem.len() {
        lemma_sum_prefix(rem, i + 1);
        assert(rem.subrange(0, i + 1).drop_last() =~= rem.subrange(0, i));
    } else {
        assert(rem.subrange(0, i) =~= rem);
    }
}

/// The ids clean-up deletes, in order, starting from `rem` (oldest first):
/// each round deletes the first entry that may go, until none may.
pub open spec fn cleanup_from(
    rem: Seq<(Seq<char>, u64, i64)>,
    lim: Limits,
    inflight: Seq<Seq<char>>,
) -> Seq<Seq<char>>
    decreases rem.len(),
{
    match first_victim(rem, 0, lim, inflight) {
        Some(k) => {
            proof {
                lemma_first_victim(rem, 0, lim, inflight);
                lemma_drop_id(rem, rem[k].0);
            }
            seq![rem[k].0] + cleanup_from(drop_id(rem, rem[k].0), lim, inflight)
        },
        None => seq![],
    }
}

/// The entries left after deleting `ids` one after the other.
pub open spec fn drop_all(rem: Seq<(Seq<char>, u64, i64)>, ids: Seq<Seq<char>>) -> Seq<
    (Seq<char>, u64, i64),
>
    decreases ids.len(),
{
    if ids.len() == 0 {
        rem
    } else {
        drop_all(drop_id(rem, ids[0]), ids.drop_first())
    }
}

fn contains_id(ids: &[String], id: &String) -> (r: bool)
    ensures
        r == ids_view(ids@).contains(id@),
{
    let n = ids.len();
    let mut i: usize = 0;
    while i < n
        invariant
            n == ids@.len(),
            i <= n,
            forall|j: int| 0 <= j < i ==> ids@[j]@ != id@,
        decreases n - i,
    {
        if ids[i] == *id {
            assert(ids_view(ids@)[i as int] == id@);
            return true;
        }
        i = i + 1;
    }
    proof {
        if ids_view(ids@).contains(id@) {
            let j = choose|j: int| 0 <= j < ids_view(ids@).len() && ids_view(ids@)[j] == id@;
            assert(ids@[j]@ == id@);
        }
    }
    false
}

fn total_bytes(rem: &Vec<(String, u64, i64)>) -> (r: u64)
    requires
        sum_bytes(entries_view(rem@)) <= u64::MAX,
    ensures
        r == sum_bytes(entries_view(rem@)),
{
    let ghost v = entries_view(rem@);
    let n = rem.len();
    let mut s: u64 = 0;
    let mut i: usize = 0;
    while i < n
        invariant
            n == rem@.len(),
            v == entries_view(rem@),
            i <= n,
            s == sum_bytes(v.subrange(0, i as int)),
            sum_bytes(v) <= u64::MAX,
        decreases n - i,
    {
        proof {
            lemma_sum_prefix(v, i + 1);
            assert(v.subrange(0, i + 1).drop_last() =~= v.subrange(0, i as int));
        }
        s = s + rem[i].1;
        i = i + 1;
    }
    assert(v.subrange(0, n as int) =~= v);
    s
}

fn is_too_old(copied_at: i64, max_age_days: Option<u32>, now: i64) -> (r: bool)
    ensures
        r == too_old(copied_at, max_age_days, now),
        r == match max_age_days {
            Some(d) => now - copied_at > d * 86_400_000,
            None => false,
        },
{
    proof {
        lemma_too_old_exact(copied_at, max_age_days, now);
    }
    match max_age_days {
        Some(d) => {
            let limit: i64 = d as i64 * DAY_MS;
            saturating_sub_i64(now, copied_at) > limit
        },
        None => false,
    }
}

fn without_id(rem: &Vec<(String, u64, i64)>, id: &String) -> (r: Vec<(String, u64, i64)>)
    ensures
        entries_view(r@) == drop_id(entries_view(rem@), id@),
{
    let ghost v = entries_view(rem@);
    let n = rem.len();
    let mut out: Vec<(String, u64, i64)> = Vec::new();
    let mut i: usize = 0;
    while i < n
        invariant
            n == rem@.len(),
            v == entries_view(rem@),
            i <= n,
            entries_view(out@) == drop_id(v.subrange(0, i as int), id@),
        decreases n - i,
    {
        proof {
            assert(v.subrange(0, i + 1).drop_last() =~= v.subrange(0, i as int));
        }
        if rem[i].0 != *id {
            let e = (rem[i].0.clone(), rem[i].1, rem[i].2);
            out.push(e);
            assert(entries_view(out@) =~= drop_id(v.subrange(0, i as int), id@).push(v[i as int]));
        }
        i = i + 1;
    }
    assert(v.subrange(0, n as int) =~= v);
    out
}

fn copy_entries(s: &[(String, u64, i64)]) -> (r: Vec<(String, u64, i64)>)
    ensures
        entries_view(r@) == entries_view(s@),
{
    let n = s.len();
    let mut out: Vec<(String, u64, i64)> = Vec::new();
    let mut i: usize = 0;
    while i < n
        invariant
            n == s@.len(),
            i <= n,
            entries_view(out@) =~= entries_view(s@).subrange(0, i as int),
        decreases n - i,
    {
        let e = (s[i].0.clone(), s[i].1, s[i].2);
        assert(entry_view(e) == entries_view(s@)[i as int]);
        let ghost before = out@;
        out.push(e);
        assert(out@ == before.push(e));
        assert(entries_view(out@) =~= entries_view(before).push(entry_view(e)));
        assert(entries_view(s@).subrange(0, i + 1) =~= entries_view(s@).subrange(0, i as int).push(
            entries_view(s@)[i as int],
        ));
        i = i + 1;
    }
    assert(entries_view(s@).subrange(0, n as int) =~= entries_view(s@));
    out
}

/// Given the history oldest first as `(id, bytes, copied_at)`, the ids to
/// delete, in deletion order, to bring it under `max_items` entries,
/// `max_bytes` bytes and `max_age_days` days at time `now_ms`, never deleting
/// an entry listed in `inflight_ids`.
pub fn cleanup_order(
    oldest_first: &[(String, u64, i64)],
    max_items: u64,
    max_bytes: u64,
    max_age_days: Option<u32>,
    now_ms: i64,
    inflight_ids: &[String],
) -> (r: Vec<String>)
    requires
        sum_bytes(entries_view(oldest_first@)) <= u64::MAX,
    ensures
        ids_view(r@) == cleanup_from(
            entries_view(oldest_first@),
            Limits { max_items, max_bytes, max_age_days, now_ms },
            ids_view(inflight_ids@),
        ),
        oldest_first@.len() <= max_items && sum_bytes(entries_view(oldest_first@)) <= max_bytes
            && (forall|k: int|
            0 <= k < oldest_first@.len() ==> match max_age_days {
                Some(d) => now_ms - (#[trigger] oldest_first@[k]).2 <= d * 86_400_000,
                None => true,
            }) ==> r@.len() == 0,
{
    let ghost lim = Limits { max_items, max_bytes, max_age_days, now_ms };
    let ghost infl = ids_view(inflight_ids@);
    let ghost whole = entries_view(oldest_first@);
    let mut remaining = copy_entries(oldest_first);
    let mut deleted: Vec<String> = Vec::new();
    loop
        invariant
            lim == (Limits { max_items, max_bytes, max_age_days, now_ms }),
            infl == ids_view(inflight_ids@),
            whole == entries_view(oldest_first@),
            sum_bytes(entries_view(remaining@)) <= sum_bytes(whole),
            sum_bytes(whole) <= u64::MAX,
            ids_view(deleted@) + cleanup_from(entries_view(remaining@), lim, infl) == cleanup_from(
                whole,
                lim,
                infl,
            ),
        ensures
            ids_view(deleted@) == cleanup_from(whole, lim, infl),
        decreases remaining@.len(),
    {
        let ghost rv = entries_view(remaining@);
        let count = remaining.len() as u64;
        let bytes = total_bytes(&remaining);
        let n = remaining.len();
        let mut victim: Option<usize> = None;
        let mut i: usize = 0;
        while i < n
            invariant_except_break
                victim is None,
            invariant
                n == remaining@.len(),
                rv == entries_view(remaining@),
                count == rv.len(),
                bytes == sum_bytes(rv),
                i <= n,
                forall|j: int| 0 <= j < i ==> !eligible(rv, j, lim, infl),
                lim == (Limits { max_items, max_bytes, max_age_days, now_ms }),
                infl == ids_view(inflight_ids@),
            ensures
                victim matches Some(k) ==> k < n && eligible(rv, k as int, lim, infl) && forall|
                    j: int,
                | 0 <= j < k ==> !eligible(rv, j, lim, infl),
                victim is None ==> forall|j: int| 0 <= j < n ==> !eligible(rv, j, lim, infl),
            decreases n - i,
        {
            let inflight = contains_id(inflight_ids, &remaining[i].0);
            if !inflight {
                let old_enough = is_too_old(remaining[i].2, max_age_days, now_ms);
                if old_enough || count > max_items || bytes > max_bytes {
                    victim = Some(i);
                    break;
                }
            }
            i = i + 1;
        }
        proof {
            lemma_first_victim(rv, 0, lim, infl);
        }
        match victim {
            Some(k) => {
                let id = remaining[k].0.clone();
                proof {
                    if first_victim(rv, 0, lim, infl) != Some(k as int) {
                        let f = first_victim(rv, 0, lim, infl);
                        assert(f is Some);
                    }
                    assert(cleanup_from(rv, lim, infl) == seq![rv[k as int].0] + cleanup_from(
                        drop_id(rv, rv[k as int].0),
                        lim,
                        infl,
                    ));
                    lemma_drop_id(rv, id@);
                }
                let next = without_id(&remaining, &id);
                proof {
                    assert(ids_view(deleted@.push(id)) =~= ids_view(deleted@).push(id@));
                    assert(ids_view(deleted@).push(id@) + cleanup_from(entries_view(next@), lim, infl)
                        =~= ids_view(deleted@) + (seq![id@] + cleanup_from(
                        entries_view(next@),
                        lim,
                        infl,
                    )));
                }
                deleted.push(id);
                remaining = next;
            },
            None => {
                proof {
                    if first_victim(rv, 0, lim, infl) is Some {
                        let f = first_victim(rv, 0, lim, infl)->0;
                        assert(eligible(rv, f, lim, infl));
                    }
                    assert(ids_view(deleted@) + seq![] =~= ids_view(deleted@));
                }
                break;
            },
        }
    }
    proof {
        let v = entries_view(oldest_first@);
        lemma_cleanup_age_limit(v, lim, infl);
        assert forall|k: int| 0 <= k < v.len() implies (#[trigger] v[k]).2 == oldest_first@[k].2 by {}
        assert(ids_view(deleted@).len() == deleted@.len());
    }
    deleted
}


/// A stored entry as one clean-up round sees it: its id, when it was copied,
/// and the hashes of the blobs it holds.
pub struct CleanupCandidate {
    pub id: String,
    pub copied_at: i64,
    pub blob_hashes: Vec<String>,
}

/// Whether candidate `c` may be deleted in a round where the history holds
/// `count` entries and `bytes` blob bytes: none of its blobs is being served,
/// and it is past the age limit or the history is over a limit.
pub open spec fn candidate_may_go(
    c: CleanupCandidate,
    count: u64,
    bytes: u64,
    settings: AppSettings,
    now: i64,
    inflight: Seq<Seq<char>>,
) -> bool {
    &&& forall|h: int| 0 <= h < c.blob_hashes@.len() ==> !inflight.contains(#[trigger] c.blob_hashes@[h]@)
    &&& {
        ||| too_old(c.copied_at, settings.cleanup_max_age_days, now)
        ||| count > settings.cleanup_max_items
        ||| bytes > settings.cleanup_max_bytes
    }
}

fn any_inflight(hashes: &Vec<String>, inflight: &[String]) -> (r: bool)
    ensures
        r == exists|h: int| 0 <= h < hashes@.len() && ids_view(inflight@).contains(#[trigger] hashes@[h]@),
{
    let n = hashes.len();
    let mut i: usize = 0;
    while i < n
        invariant
            n == hashes@.len(),
            i <= n,
            forall|h: int| 0 <= h < i ==> !ids_view(inflight@).contains(#[trigger] hashes@[h]@),
        decreases n - i,
    {
        if contains_id(inflight, &hashes[i]) {
            return true;
        }
        i = i + 1;
    }
    false
}

/// One round of clean-up over the stored entries, oldest first: the index of
/// the first entry that may be deleted, if any.
pub fn cleanup_victim(
    oldest: &[CleanupCandidate],
    count: u64,
    bytes: u64,
    settings: &AppSettings,
    now: i64,
    inflight: &[String],
) -> (r: Option<usize>)
    ensures
        match r {
            Some(k) => {
                &&& k < oldest@.len()
                &&& candidate_may_go(oldest@[k as int], count, bytes, *settings, now, ids_view(inflight@))
                &&& forall|j: int| 0 <= j < k ==> !candidate_may_go(#[trigger] oldest@[j], count, bytes, *settings, now, ids_view(inflight@))
            },
            None => forall|j: int| 0 <= j < oldest@.len() ==> !candidate_may_go(#[trigger] oldest@[j], count, bytes, *settings, now, ids_view(inflight@)),
        },
{
    let n = oldest.len();
    let mut i: usize = 0;
    while i < n
        invariant
            n == oldest@.len(),
            i <= n,
            forall|j: int| 0 <= j < i ==> !candidate_may_go(#[trigger] oldest@[j], count, bytes, *settings, now, ids_view(inflight@)),
        decreases n - i,
    {
        let c = &oldest[i];
        if !any_inflight(&c.blob_hashes, inflight) {
            let old_enough = is_too_old(c.copied_at, settings.cleanup_max_age_days, now);
            if old_enough || count > settings.cleanup_max_items || bytes > settings.cleanup_max_bytes {
                return Some(i);
            }
        }
        i = i + 1;
    }
    None
}

/// At most this many entries go in one clean-up run.
pub const CLEANUP_MAX_DELETIONS: usize = 10_000;

/// Whether a clean-up run that has deleted `deleted` entries goes on.
pub fn cleanup_continues(deleted: usize) -> (r: bool)
    ensures
        r == (deleted <= CLEANUP_MAX_DELETIONS),
{
    deleted <= CLEANUP_MAX_DELETIONS
}

/// Clean-up never deletes an entry that is being served.
pub proof fn lemma_cleanup_spares_inflight(
    rem: Seq<(Seq<char>, u64, i64)>,
    lim: Limits,
    inflight: Seq<Seq<char>>,
)
    ensures
        forall|j: int|
            0 <= j < cleanup_from(rem, lim, inflight).len() ==> !inflight.contains(
                #[trigger] cleanup_from(rem, lim, inflight)[j],
            ),
    decreases rem.len(),
{
    lemma_first_victim(rem, 0, lim, inflight);
    match first_victim(rem, 0, lim, inflight) {
        Some(k) => {
            lemma_drop_id(rem, rem[k].0);
            let rest = drop_id(rem, rem[k].0);
            lemma_cleanup_spares_inflight(rest, lim, inflight);
            let c = cleanup_from(rem, lim, inflight);
            assert forall|j: int| 0 <= j < c.len() implies !inflight.contains(#[trigger] c[j]) by {
                if j > 0 {
                    assert(c[j] == cleanup_from(rest, lim, inflight)[j - 1]);
                }
            }
        },
        None => {},
    }
}

/// Clean-up stops only once nothing more may go: after its deletions every
/// entry left is being served, or the history is within the item and byte
/// limits and holds no entry past the age limit that is not being served.
pub proof fn lemma_cleanup_reaches_limits(
    rem: Seq<(Seq<char>, u64, i64)>,
    lim: Limits,
    inflight: Seq<Seq<char>>,
)
    ensures
        ({
            let left = drop_all(rem, cleanup_from(rem, lim, inflight));
            forall|j: int|
                0 <= j < left.len() ==> !inflight.contains(#[trigger] left[j].0) ==> {
                    &&& !too_old(left[j].2, lim.max_age_days, lim.now_ms)
                    &&& left.len() <= lim.max_items
                    &&& sum_bytes(left) <= lim.max_bytes
                }
        }),
    decreases rem.len(),
{
    lemma_first_victim(rem, 0, lim, inflight);
    match first_victim(rem, 0, lim, inflight) {
        Some(k) => {
            lemma_drop_id(rem, rem[k].0);
            let rest = drop_id(rem, rem[k].0);
            lemma_cleanup_reaches_limits(rest, lim, inflight);
            let c = cleanup_from(rem, lim, inflight);
            assert(c[0] == rem[k].0);
            assert(c.drop_first() =~= cleanup_from(rest, lim, inflight));
            assert(drop_all(rem, c) == drop_all(rest, cleanup_from(rest, lim, inflight)));
        },
        None => {
            assert(cleanup_from(rem, lim, inflight) =~= seq![]);
            let left = drop_all(rem, cleanup_from(rem, lim, inflight));
            assert(left == rem);
            assert forall|j: int| 0 <= j < left.len() && !inflight.contains(
                #[trigger] left[j].0,
            ) implies {
                &&& !too_old(left[j].2, lim.max_age_days, lim.now_ms)
                &&& left.len() <= lim.max_items
                &&& sum_bytes(left) <= lim.max_bytes
            } by {
                assert(!eligible(rem, j, lim, inflight));
            }
        },
    }
}

/// Every id clean-up deletes is the id of an entry of the history.
pub proof fn lemma_cleanup_deletes_listed(
    rem: Seq<(Seq<char>, u64, i64)>,
    lim: Limits,
    inflight: Seq<Seq<char>>,
)
    ensures
        forall|j: int|
            0 <= j < cleanup_from(rem, lim, inflight).len() ==> exists|k: int|
                0 <= k < rem.len() && rem[k].0 == #[trigger] cleanup_from(rem, lim, inflight)[j],
    decreases rem.len(),
{
    lemma_first_victim(rem, 0, lim, inflight);
    match first_victim(rem, 0, lim, inflight) {
        Some(k) => {
            lemma_drop_id(rem, rem[k].0);
            let rest = drop_id(rem, rem[k].0);
            lemma_cleanup_deletes_listed(rest, lim, inflight);
            let c = cleanup_from(rem, lim, inflight);
            assert forall|j: int| 0 <= j < c.len() implies exists|i: int|
                0 <= i < rem.len() && rem[i].0 == #[trigger] c[j] by {
                if j == 0 {
                    assert(rem[k].0 == c[0]);
                } else {
                    assert(c[j] == cleanup_from(rest, lim, inflight)[j - 1]);
                    let i = choose|i: int|
                        0 <= i < rest.len() && rest[i].0 == cleanup_from(rest, lim, inflight)[j
                            - 1];
                    assert(rem.contains(rest[i]));
                    let i2 = choose|i2: int| 0 <= i2 < rem.len() && rem[i2] == rest[i];
                    assert(rem[i2].0 == c[j]);
                }
            }
        },
        None => {},
    }
}


/// Whether entry ids are pairwise different.
pub open spec fn distinct_ids(rem: Seq<(Seq<char>, u64, i64)>) -> bool {
    forall|i: int, j: int| 0 <= i < j < rem.len() ==> rem[i].0 != rem[j].0
}

/// Whether the entry with id `x` comes before the one with id `y`.
pub open spec fn listed_before(rem: Seq<(Seq<char>, u64, i64)>, x: Seq<char>, y: Seq<char>) -> bool {
    exists|i: int, j: int| 0 <= i < j < rem.len() && rem[i].0 == x && rem[j].0 == y
}

/// Whether the history is over its item or byte limit.
pub open spec fn over_limits(rem: Seq<(Seq<char>, u64, i64)>, lim: Limits) -> bool {
    rem.len() > lim.max_items || sum_bytes(rem) > lim.max_bytes
}

/// Whether no entry whose id is in `ids` may go now or after any deletion:
/// each is served, or neither too old nor in a history over its limits.
pub open spec fn blocked(
    rem: Seq<(Seq<char>, u64, i64)>,
    ids: Set<Seq<char>>,
    lim: Limits,
    inflight: Seq<Seq<char>>,
) -> bool {
    forall|j: int|
        0 <= j < rem.len() && ids.contains(#[trigger] rem[j].0) ==> inflight.contains(rem[j].0) || (
        !too_old(rem[j].2, lim.max_age_days, lim.now_ms) && !over_limits(rem, lim))
}

proof fn lemma_blocked_persists(
    rem: Seq<(Seq<char>, u64, i64)>,
    id: Seq<char>,
    ids: Set<Seq<char>>,
    lim: Limits,
    inflight: Seq<Seq<char>>,
)
    requires
        blocked(rem, ids, lim, inflight),
    ensures
        blocked(drop_id(rem, id), ids, lim, inflight),
{
    lemma_drop_id(rem, id);
    let r2 = drop_id(rem, id);
    assert forall|j: int|
        0 <= j < r2.len() && ids.contains(#[trigger] r2[j].0) implies inflight.contains(r2[j].0) || (
    !too_old(r2[j].2, lim.max_age_days, lim.now_ms) && !over_limits(r2, lim)) by {
        assert(rem.contains(r2[j]));
        let i = choose|i: int| 0 <= i < rem.len() && rem[i] == r2[j];
        assert(ids.contains(rem[i].0));
    }
}

proof fn lemma_blocked_never_deleted(
    rem: Seq<(Seq<char>, u64, i64)>,
    ids: Set<Seq<char>>,
    lim: Limits,
    inflight: Seq<Seq<char>>,
)
    requires
        blocked(rem, ids, lim, inflight),
    ensures
        forall|t: int|
            0 <= t < cleanup_from(rem, lim, inflight).len() ==> !ids.contains(
                #[trigger] cleanup_from(rem, lim, inflight)[t],
            ),
    decreases rem.len(),
{
    lemma_first_victim(rem, 0, lim, inflight);
    match first_victim(rem, 0, lim, inflight) {
        Some(k) => {
            let v = rem[k].0;
            lemma_drop_id(rem, v);
            lemma_blocked_persists(rem, v, ids, lim, inflight);
            let rest = drop_id(rem, v);
            lemma_blocked_never_deleted(rest, ids, lim, inflight);
            let c = cleanup_from(rem, lim, inflight);
            assert forall|t: int| 0 <= t < c.len() implies !ids.contains(#[trigger] c[t]) by {
                if t > 0 {
                    assert(c[t] == cleanup_from(rest, lim, inflight)[t - 1]);
                } else {
                    assert(eligible(rem, k, lim, inflight));
                }
            }
        },
        None => {},
    }
}

proof fn lemma_drop_keeps_order(
    rem: Seq<(Seq<char>, u64, i64)>,
    id: Seq<char>,
    x: Seq<char>,
    y: Seq<char>,
)
    requires
        listed_before(drop_id(rem, id), x, y),
    ensures
        listed_before(rem, x, y),
    decreases rem.len(),
{
    if rem.len() > 0 {
        let p = rem.drop_last();
        let dp = drop_id(p, id);
        let d = drop_id(rem, id);
        lemma_drop_id(p, id);
        let (i, j) = choose|i: int, j: int| 0 <= i < j < d.len() && d[i].0 == x && d[j].0 == y;
        if j < dp.len() {
            assert(d[i] == dp[i] && d[j] == dp[j]);
            assert(listed_before(dp, x, y));
            lemma_drop_keeps_order(p, id, x, y);
            let (a, b) = choose|a: int, b: int| 0 <= a < b < p.len() && p[a].0 == x && p[b].0 == y;
            assert(rem[a] == p[a] && rem[b] == p[b]);
        } else {
            assert(d[j] == rem.last());
            assert(d[i] == dp[i]);
            assert(p.contains(dp[i]));
            let a = choose|a: int| 0 <= a < p.len() && p[a] == dp[i];
            assert(rem[a] == p[a]);
            assert(rem[rem.len() - 1] == rem.last());
        }
    }
}

proof fn lemma_drop_keeps_distinct(rem: Seq<(Seq<char>, u64, i64)>, id: Seq<char>)
    requires
        distinct_ids(rem),
    ensures
        distinct_ids(drop_id(rem, id)),
    decreases rem.len(),
{
    if rem.len() > 0 {
        let p = rem.drop_last();
        assert(distinct_ids(p)) by {
            assert forall|i: int, j: int| 0 <= i < j < p.len() implies p[i].0 != p[j].0 by {
                assert(p[i] == rem[i] && p[j] == rem[j]);
            }
        }
        lemma_drop_keeps_distinct(p, id);
        lemma_drop_id(p, id);
        let dp = drop_id(p, id);
        let d = drop_id(rem, id);
        if rem.last().0 != id {
            assert forall|i: int, j: int| 0 <= i < j < d.len() implies d[i].0 != d[j].0 by {
                if j == d.len() - 1 {
                    assert(d[i] == dp[i]);
                    assert(p.contains(dp[i]));
                    let a = choose|a: int| 0 <= a < p.len() && p[a] == dp[i];
                    assert(rem[a] == p[a]);
                    assert(rem[rem.len() - 1] == rem.last());
                } else {
                    assert(d[i] == dp[i] && d[j] == dp[j]);
                }
            }
        }
    }
}

/// Clean-up deletes oldest first: with entries listed oldest first under
/// distinct ids, an entry is always deleted before any newer one.
pub proof fn lemma_cleanup_oldest_first(
    rem: Seq<(Seq<char>, u64, i64)>,
    lim: Limits,
    inflight: Seq<Seq<char>>,
)
    requires
        distinct_ids(rem),
    ensures
        forall|a: int, b: int|
            0 <= a < b < cleanup_from(rem, lim, inflight).len() ==> listed_before(
                rem,
                #[trigger] cleanup_from(rem, lim, inflight)[a],
                #[trigger] cleanup_from(rem, lim, inflight)[b],
            ),
    decreases rem.len(),
{
    lemma_first_victim(rem, 0, lim, inflight);
    match first_victim(rem, 0, lim, inflight) {
        Some(k) => {
            let v = rem[k].0;
            lemma_drop_id(rem, v);
            let rest = drop_id(rem, v);
            lemma_drop_keeps_distinct(rem, v);
            lemma_cleanup_oldest_first(rest, lim, inflight);
            let older = Set::new(|x: Seq<char>| exists|i: int| 0 <= i < k && rem[i].0 == x);
            assert(blocked(rem, older, lim, inflight)) by {
                assert forall|j: int|
                    0 <= j < rem.len() && older.contains(#[trigger] rem[j].0) implies inflight.contains(
                    rem[j].0,
                ) || (!too_old(rem[j].2, lim.max_age_days, lim.now_ms) && !over_limits(rem, lim)) by {
                    let i = choose|i: int| 0 <= i < k && rem[i].0 == rem[j].0;
                    if i != j {
                        if i < j {
                            assert(rem[i].0 != rem[j].0);
                        } else {
                            assert(rem[j].0 != rem[i].0);
                        }
                    }
                    assert(!eligible(rem, i, lim, inflight));
                }
            }
            lemma_blocked_persists(rem, v, older, lim, inflight);
            lemma_blocked_never_deleted(rest, older, lim, inflight);
            lemma_cleanup_deletes_listed(rest, lim, inflight);
            let c = cleanup_from(rem, lim, inflight);
            let c2 = cleanup_from(rest, lim, inflight);
            assert forall|a: int, b: int| 0 <= a < b < c.len() implies listed_before(
                rem,
                #[trigger] c[a],
                #[trigger] c[b],
            ) by {
                assert(c[b] == c2[b - 1]);
                if a > 0 {
                    assert(c[a] == c2[a - 1]);
                    assert(listed_before(rest, c2[a - 1], c2[b - 1]));
                    lemma_drop_keeps_order(rem, v, c2[a - 1], c2[b - 1]);
                } else {
                    let x = c2[b - 1];
                    let t = choose|t: int| 0 <= t < rest.len() && rest[t].0 == x;
                    assert(rem.contains(rest[t]));
                    let i = choose|i: int| 0 <= i < rem.len() && rem[i] == rest[t];
                    assert(!older.contains(x));
                    assert(rest[t].0 != v);
                    if i < k {
                        assert(older.contains(rem[i].0));
                    }
                    assert(i != k);
                    assert(c[0] == v);
                }
            }
        },
        None => {},
    }
}

/// Whether deleting `c[t]` after the deletions `c[..t]` was needed: what is
/// left then holds an entry with that id that is not being served, and it
/// is too old or the history is over its item or byte limit.
pub open spec fn deletion_needed(
    rem: Seq<(Seq<char>, u64, i64)>,
    c: Seq<Seq<char>>,
    t: int,
    lim: Limits,
    inflight: Seq<Seq<char>>,
) -> bool {
    let left = drop_all(rem, c.subrange(0, t));
    exists|j: int|
        0 <= j < left.len() && #[trigger] left[j].0 == c[t] && !inflight.contains(left[j].0) && (
        too_old(left[j].2, lim.max_age_days, lim.now_ms) || over_limits(left, lim))
}

/// Every deletion of clean-up was needed: when an id goes, the entries left
/// by the deletions before it hold an entry with that id that is not being
/// served, and it is too old or the history is over its item or byte limit.
pub proof fn lemma_cleanup_each_needed(
    rem: Seq<(Seq<char>, u64, i64)>,
    lim: Limits,
    inflight: Seq<Seq<char>>,
)
    ensures
        forall|t: int|
            0 <= t < cleanup_from(rem, lim, inflight).len() ==> #[trigger] deletion_needed(
                rem,
                cleanup_from(rem, lim, inflight),
                t,
                lim,
                inflight,
            ),
    decreases rem.len(),
{
    lemma_first_victim(rem, 0, lim, inflight);
    match first_victim(rem, 0, lim, inflight) {
        Some(k) => {
            let v = rem[k].0;
            lemma_drop_id(rem, v);
            let rest = drop_id(rem, v);
            lemma_cleanup_each_needed(rest, lim, inflight);
            let c = cleanup_from(rem, lim, inflight);
            let c2 = cleanup_from(rest, lim, inflight);
            assert(c == seq![v] + c2);
            assert forall|t: int| 0 <= t < c.len() implies #[trigger] deletion_needed(
                rem,
                c,
                t,
                lim,
                inflight,
            ) by {
                if t == 0 {
                    assert(c.subrange(0, 0) =~= Seq::<Seq<char>>::empty());
                    assert(drop_all(rem, c.subrange(0, 0)) == rem);
                    assert(eligible(rem, k, lim, inflight));
                    assert(rem[k].0 == c[0]);
                } else {
                    let pre = c.subrange(0, t);
                    assert(pre[0] == v);
                    assert(pre.drop_first() =~= c2.subrange(0, t - 1));
                    assert(drop_all(rem, pre) == drop_all(rest, c2.subrange(0, t - 1)));
                    assert(c[t] == c2[t - 1]);
                    assert(deletion_needed(rest, c2, t - 1, lim, inflight));
                }
            }
        },
        None => {
            assert(cleanup_from(rem, lim, inflight) =~= seq![]);
        },
    }
}

/// The age limit counts whole days: an entry is past it exactly when more
/// than `max_age_days` × 86 400 000 ms have gone by since it was copied, and
/// without a limit nothing is.
pub proof fn lemma_too_old_exact(copied_at: i64, max_age_days: Option<u32>, now: i64)
    ensures
        too_old(copied_at, max_age_days, now) == match max_age_days {
            Some(d) => now - copied_at > d * 86_400_000,
            None => false,
        },
{
    if let Some(d) = max_age_days {
        assert(d * 86_400_000 <= 0xffff_ffff * 86_400_000) by (nonlinear_arith)
            requires
                d <= 0xffff_ffff,
        ;
        assert(0 <= d * 86_400_000) by (nonlinear_arith)
            requires
                0 <= d,
        ;
        assert(DAY_MS == 86_400_000);
    }
}

/// A history within its item and byte limits whose entries are all within
/// the age limit loses nothing; and an entry past the age limit that is not
/// being served means something is deleted.
pub proof fn lemma_cleanup_age_limit(
    rem: Seq<(Seq<char>, u64, i64)>,
    lim: Limits,
    inflight: Seq<Seq<char>>,
)
    ensures
        rem.len() <= lim.max_items && sum_bytes(rem) <= lim.max_bytes && (forall|k: int|
            0 <= k < rem.len() ==> match lim.max_age_days {
                Some(d) => lim.now_ms - (#[trigger] rem[k]).2 <= d * 86_400_000,
                None => true,
            }) ==> cleanup_from(rem, lim, inflight).len() == 0,
        (exists|k: int|
            0 <= k < rem.len() && !inflight.contains((#[trigger] rem[k]).0) && match lim.max_age_days {
                Some(d) => lim.now_ms - rem[k].2 > d * 86_400_000,
                None => false,
            }) ==> cleanup_from(rem, lim, inflight).len() > 0,
{
    lemma_first_victim(rem, 0, lim, inflight);
    if rem.len() <= lim.max_items && sum_bytes(rem) <= lim.max_bytes && (forall|k: int|
        0 <= k < rem.len() ==> match lim.max_age_days {
            Some(d) => lim.now_ms - (#[trigger] rem[k]).2 <= d * 86_400_000,
            None => true,
        }) {
        assert forall|k: int| 0 <= k < rem.len() implies !eligible(rem, k, lim, inflight) by {
            lemma_too_old_exact(rem[k].2, lim.max_age_days, lim.now_ms);
        }
        assert(first_victim(rem, 0, lim, inflight) is None);
    }
    if exists|k: int|
        0 <= k < rem.len() && !inflight.contains((#[trigger] rem[k]).0) && match lim.max_age_days {
            Some(d) => lim.now_ms - rem[k].2 > d * 86_400_000,
            None => false,
        } {
        let k = choose|k: int|
            0 <= k < rem.len() && !inflight.contains((#[trigger] rem[k]).0) && match lim.max_age_days {
                Some(d) => lim.now_ms - rem[k].2 > d * 86_400_000,
                None => false,
            };
        lemma_too_old_exact(rem[k].2, lim.max_age_days, lim.now_ms);
        assert(eligible(rem, k, lim, inflight));
        assert(first_victim(rem, 0, lim, inflight) is Some);
    }
}
} // verus!
