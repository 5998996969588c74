//! Answers to questions about the provider's sessions as they are now.
//!
//! A query never looks at the registry. It starts from a fresh
//! enumeration, made by the caller, and from what was read of each
//! session. A session without a snapshot is left out of the answer; that
//! it had none is never reported as an error.
use vstd::prelude::*;
use crate::media::{MediaInfo, MediaInfoView};
use crate::projection::{RawProperties, RawPropertiesView, project, projected};
use crate::registry::IdView;

verus! {

/// The snapshot of a session, or none where it has none.
pub open spec fn snapshot_if_any(raw: RawPropertiesView) -> Option<MediaInfoView> {
    match projected(raw) {
        Ok(info) => Some(info),
        Err(_) => None,
    }
}

/// The snapshots of the sessions that have one, in enumeration order.
pub open spec fn snapshots_of(raws: Seq<RawPropertiesView>) -> Seq<MediaInfoView>
    decreases raws.len(),
{
    if raws.len() == 0 {
        Seq::empty()
    } else {
        let earlier = snapshots_of(raws.drop_last());
        match projected(raws.last()) {
            Ok(info) => earlier.push(info),
            Err(_) => earlier,
        }
    }
}

/// The number of sessions that have no snapshot.
pub open spec fn failures(raws: Seq<RawPropertiesView>) -> nat
    decreases raws.len(),
{
    if raws.len() == 0 {
        0
    } else if projected(raws.last()) is Err {
        failures(raws.drop_last()) + 1
    } else {
        failures(raws.drop_last())
    }
}

/// Whether position `i` is the first whose session reports the id `id`.
pub open spec fn is_first_match(raws: Seq<RawPropertiesView>, id: IdView, i: int) -> bool {
    &&& 0 <= i < raws.len()
    &&& raws[i].source_app_id == Some(id)
    &&& forall|j: int| 0 <= j < i ==> (#[trigger] raws[j]).source_app_id != Some(id)
}

/// The snapshot of the first session that reports the id `id`: none if
/// there is no such session, or if that session has no snapshot.
pub open spec fn snapshot_by_id(raws: Seq<RawPropertiesView>, id: IdView) -> Option<
    MediaInfoView,
> {
    if exists|i: int| is_first_match(raws, id, i) {
        snapshot_if_any(raws[choose|i: int| is_first_match(raws, id, i)])
    } else {
        None
    }
}

/// Of `N` sessions of which `K` have no snapshot, `N - K` snapshots are
/// listed.
pub proof fn lemma_snapshots_count(raws: Seq<RawPropertiesView>)
    ensures
        snapshots_of(raws).len() + failures(raws) == raws.len(),
    decreases raws.len(),
{
    if raws.len() > 0 {
        lemma_snapshots_count(raws.drop_last());
    }
}

/// At most one position is the first to report a given id.
pub proof fn lemma_first_match_unique(raws: Seq<RawPropertiesView>, id: IdView, i: int, j: int)
    requires
        is_first_match(raws, id, i),
        is_first_match(raws, id, j),
    ensures
        i == j,
{
    if i < j {
        assert(raws[i].source_app_id != Some(id));
    } else if j < i {
        assert(raws[j].source_app_id != Some(id));
    }
}

/// The snapshot of one session for a query: `None` where the session
/// has none.
pub fn snapshot_or_none(raw: RawProperties) -> (found: Option<MediaInfo>)
    ensures
        found.deep_view() == snapshot_if_any(raw@),
{
    match project(raw) {
        Ok(info) => Some(info),
        Err(_) => None,
    }
}

/// The snapshots of all sessions that have one, in enumeration order.
/// The sessions without a snapshot are left out, and only they.
pub fn collect_snapshots(raws: Vec<RawProperties>) -> (infos: Vec<MediaInfo>)
    ensures
        infos.deep_view() == snapshots_of(raws.deep_view()),
        infos.len() == raws.len() - failures(raws.deep_view()),
{
    let ghost all = raws.deep_view();
    let mut infos: Vec<MediaInfo> = Vec::new();
    assert(all.take(0) =~= Seq::empty());
    assert(infos.deep_view() =~= Seq::empty());
    for raw in it: raws
        invariant
            it.seq() == raws@,
            all == raws.deep_view(),
            infos.deep_view() == snapshots_of(all.take(it.index() as int)),
    {
        let ghost i = it.index() as int;
        let ghost before = infos.deep_view();
        assert(all.take(i + 1).drop_last() =~= all.take(i));
        assert(all.take(i + 1).last() == raw@);
        match project(raw) {
            Ok(info) => {
                infos.push(info);
                assert(infos.deep_view() =~= before.push(info@));
            },
            Err(_) => {},
        }
    }
    proof {
        assert(all.take(raws@.len() as int) =~= all);
        lemma_snapshots_count(all);
        assert(infos.deep_view().len() == infos.len());
    }
    infos
}

/// The position of the first session that reports the id `id`.
pub fn find_by_id(raws: &Vec<RawProperties>, id: &String) -> (found: Option<usize>)
    ensures
        match found {
            Some(i) => is_first_match(raws.deep_view(), id@, i as int),
            None => forall|i: int| !is_first_match(raws.deep_view(), id@, i),
        },
{
    let ghost all = raws.deep_view();
    let mut i: usize = 0;
    while i < raws.len()
        invariant
            i <= raws.len(),
            all == raws.deep_view(),
            forall|j: int| 0 <= j < i ==> (#[trigger] all[j]).source_app_id != Some(id@),
        decreases raws.len() - i,
    {
        assert(all[i as int] == raws@[i as int]@);
        let same = match &raws[i].source_app_id {
            Some(reported) => *reported == *id,
            None => false,
        };
        if same {
            return Some(i);
        }
        i += 1;
    }
    assert forall|k: int| !is_first_match(all, id@, k) by {
        if 0 <= k < all.len() {
            assert(all[k].source_app_id != Some(id@));
        }
    }
    None
}

/// The snapshot of the first session that reports the id `id`, or
/// `None` if no session reports it or that session has no snapshot.
pub fn lookup_by_id(raws: Vec<RawProperties>, id: &String) -> (found: Option<MediaInfo>)
    ensures
        found.deep_view() == snapshot_by_id(raws.deep_view(), id@),
{
    let ghost all = raws.deep_view();
    match find_by_id(&raws, id) {
        Some(i) => {
            let mut raws = raws;
            let raw = raws.swap_remove(i);
            proof {
                let chosen = choose|k: int| is_first_match(all, id@, k);
                lemma_first_match_unique(all, id@, i as int, chosen);
                assert(raw@ == all[i as int]);
            }
            snapshot_or_none(raw)
        },
        None => None,
    }
}

} // verus!
