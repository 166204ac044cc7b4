//! The processor's decisions: which torrents of a published list are
//! prepared, which are removed, and what the in-flight list announces.
//! The surrounding loop performs the moves and the channel traffic.

use vstd::prelude::*;
use vstd::string::*;
use crate::codec::{spec_decoded_category, ExtraShape};
use crate::torrent::{spec_is_done, spec_is_faulty, TorrentInfo};

verus! {

/// An extra that is ready to process: a movie, or a series whose file
/// mapping has been attached.
pub open spec fn shape_process_ready(sh: ExtraShape) -> bool {
    match sh {
        ExtraShape::Movie { .. } => true,
        ExtraShape::Series { mapping, .. } => mapping is Some,
    }
}

/// The title an extra carries.
pub open spec fn shape_title(sh: ExtraShape) -> Seq<char> {
    match sh {
        ExtraShape::Movie { title, .. } => title,
        ExtraShape::Series { title, .. } => title,
    }
}

/// An extra that still waits for its file mapping.
pub open spec fn shape_needs_mapping(sh: ExtraShape) -> bool {
    match sh {
        ExtraShape::Movie { .. } => false,
        ExtraShape::Series { mapping, .. } => mapping is None,
    }
}

/// A torrent the processor prepares: its download has finished, its
/// category decodes, and the extra is ready to process.
pub open spec fn spec_should_process(t: TorrentInfo) -> bool {
    spec_is_done(t.state) && match spec_decoded_category(t.category@) {
        Option::Some(sh) => shape_process_ready(sh),
        Option::None => false,
    }
}

/// Whether a torrent needs preparing, judged from its state and its
/// decoded category alone.
pub fn should_process(t: &TorrentInfo) -> (r: bool)
    ensures
        r == spec_should_process(*t),
{
    if !t.state.is_done() {
        return false;
    }
    match crate::codec::decode_category(t.category.as_str()) {
        Ok(x) => {
            let needs = x.needs_file_mapping();
            proof {
                assert(shape_process_ready(crate::codec::extra_shape_of(x))
                    == !crate::torrent::spec_needs_file_mapping(x));
            }
            !needs
        },
        Err(_) => false,
    }
}

/// A hash appears in a list of hashes.
pub open spec fn hash_in(hashes: Seq<String>, h: Seq<char>) -> bool {
    exists|k: int| 0 <= k < hashes.len() && (#[trigger] hashes[k])@ == h
}

/// The indices of the torrents to prepare this round: finished,
/// decodable, ready, and not already handed to the pipeline.
pub open spec fn spec_to_process(torrents: Seq<TorrentInfo>, processing: Seq<String>) -> Seq<int>
    decreases torrents.len(),
{
    if torrents.len() == 0 {
        Seq::empty()
    } else {
        let prefix = spec_to_process(torrents.drop_last(), processing);
        let t = torrents.last();
        if spec_should_process(t) && !hash_in(processing, t.hash@) {
            prefix.push(torrents.len() - 1)
        } else {
            prefix
        }
    }
}

/// The hashes of the faulty torrents, queued for removal without any
/// preparation.
pub open spec fn spec_faulty_hashes(torrents: Seq<TorrentInfo>) -> Seq<Seq<char>>
    decreases torrents.len(),
{
    if torrents.len() == 0 {
        Seq::empty()
    } else {
        let prefix = spec_faulty_hashes(torrents.drop_last());
        let t = torrents.last();
        if spec_is_faulty(t.state) {
            prefix.push(t.hash@)
        } else {
            prefix
        }
    }
}

/// The views of a list of hashes.
pub open spec fn hash_views(hs: Seq<String>) -> Seq<Seq<char>> {
    hs.map_values(|h: String| h@)
}

/// The hashes of the selected torrents, in selection order.
pub open spec fn selected_hashes(torrents: Seq<TorrentInfo>, idxs: Seq<int>) -> Seq<Seq<char>> {
    idxs.map_values(|i: int| torrents[i].hash@)
}

/// One round's decisions.
#[derive(Debug, PartialEq, Eq)]
pub struct ProcessPlan {
    /// Hashes of faulty torrents: removed without preparation.
    pub faulty: Vec<String>,
    /// Indices into the published list: the torrents to prepare.
    pub to_process: Vec<usize>,
    /// The in-flight list to publish before any work begins: the old
    /// list plus the hashes now entering preparation. Once the round's
    /// work is done, `retained_processing` gives the list to publish
    /// instead, without the failed hashes.
    pub announced: Vec<String>,
}

/// The indices as mathematical integers.
pub open spec fn idx_views(idxs: Seq<usize>) -> Seq<int> {
    idxs.map_values(|i: usize| i as int)
}

/// What a round's plan promises.
pub open spec fn plan_ok(
    torrents: Seq<TorrentInfo>,
    processing: Seq<String>,
    p: ProcessPlan,
) -> bool {
    &&& hash_views(p.faulty@) == spec_faulty_hashes(torrents)
    &&& idx_views(p.to_process@) == spec_to_process(torrents, processing)
    &&& hash_views(p.announced@) == hash_views(processing) + selected_hashes(
        torrents,
        spec_to_process(torrents, processing),
    )
}

/// Every selected index is in range, selects a processable torrent, and
/// its hash is not in the in-flight list.
pub proof fn lemma_to_process_fresh(torrents: Seq<TorrentInfo>, processing: Seq<String>)
    ensures
        forall|m: int|
            0 <= m < spec_to_process(torrents, processing).len() ==> {
                let idx = #[trigger] spec_to_process(torrents, processing)[m];
                &&& 0 <= idx < torrents.len()
                &&& spec_should_process(torrents[idx])
                &&& !hash_in(processing, torrents[idx].hash@)
            },
    decreases torrents.len(),
{
    if torrents.len() > 0 {
        lemma_to_process_fresh(torrents.drop_last(), processing);
        let prefix = spec_to_process(torrents.drop_last(), processing);
        assert(forall|m: int|
            0 <= m < prefix.len() ==> torrents.drop_last()[#[trigger] prefix[m]] == torrents[
            prefix[m]]);
    }
}

/// A successfully prepared selection's hash appears among the removals.
pub proof fn lemma_removals_contain(
    torrents: Seq<TorrentInfo>,
    idxs: Seq<int>,
    oks: Seq<bool>,
    m: int,
)
    requires
        idxs.len() == oks.len(),
        0 <= m < idxs.len(),
        oks[m],
    ensures
        exists|k: int|
            0 <= k < spec_removals(torrents, idxs, oks).len() && #[trigger] spec_removals(
                torrents,
                idxs,
                oks,
            )[k] == torrents[idxs[m]].hash@,
    decreases idxs.len(),
{
    let r = spec_removals(torrents, idxs, oks);
    if m == idxs.len() - 1 {
        assert(r[r.len() - 1] == torrents[idxs[m]].hash@);
    } else {
        lemma_removals_contain(torrents, idxs.drop_last(), oks.drop_last(), m);
        let pre = spec_removals(torrents, idxs.drop_last(), oks.drop_last());
        let k = choose|k: int|
            0 <= k < pre.len() && #[trigger] pre[k] == torrents[idxs.drop_last()[m]].hash@;
        assert(idxs.drop_last()[m] == idxs[m]);
        assert(r[k] == pre[k]);
    }
}

/// Across one loop's lifetime the prepare step runs at most once per
/// hash while it stands in the in-flight list: once a hash's
/// preparation succeeds and the retained list carries it, the next
/// round never selects it again. A failed preparation's hash is left
/// out of the retained list, so the next published list reconsiders it.
#[verifier::rlimit(100)]
#[verifier::spinoff_prover]
pub proof fn lemma_no_double_prepare(
    torrents1: Seq<TorrentInfo>,
    processing1: Seq<String>,
    oks1: Seq<bool>,
    torrents2: Seq<TorrentInfo>,
    processing2: Seq<String>,
)
    requires
        oks1.len() == spec_to_process(torrents1, processing1).len(),
        hash_views(processing2) == hash_views(processing1) + spec_removals(
            torrents1,
            spec_to_process(torrents1, processing1),
            oks1,
        ),
    ensures
        forall|m1: int, m2: int|
            0 <= m1 < spec_to_process(torrents1, processing1).len() && oks1[m1] && 0 <= m2
                < spec_to_process(torrents2, processing2).len() ==> torrents1[
                #[trigger] spec_to_process(torrents1, processing1)[m1]].hash@ != torrents2[
                #[trigger] spec_to_process(torrents2, processing2)[m2]].hash@,
{
    let sel1 = spec_to_process(torrents1, processing1);
    let sel2 = spec_to_process(torrents2, processing2);
    lemma_to_process_fresh(torrents1, processing1);
    lemma_to_process_fresh(torrents2, processing2);
    assert forall|m1: int, m2: int|
        0 <= m1 < sel1.len() && oks1[m1] && 0 <= m2 < sel2.len() implies torrents1[
        #[trigger] sel1[m1]].hash@ != torrents2[#[trigger] sel2[m2]].hash@ by {
        let h1 = torrents1[sel1[m1]].hash@;
        // The hash stands among the removals, hence in the retained
        // list the next round starts from.
        lemma_removals_contain(torrents1, sel1, oks1, m1);
        let rem = spec_removals(torrents1, sel1, oks1);
        let k = choose|k: int| 0 <= k < rem.len() && #[trigger] rem[k] == h1;
        let pos: int = processing1.len() as int + k;
        assert(hash_views(processing2).len() == processing2.len());
        assert(0 <= pos < processing2.len());
        assert(hash_views(processing2)[pos] == h1) by {
            assert((hash_views(processing1) + rem)[pos] == h1);
        }
        assert(hash_views(processing2)[pos] == processing2[pos]@);
        assert(hash_in(processing2, h1)) by {
            assert(processing2[pos]@ == h1);
        }
        assert(!hash_in(processing2, torrents2[sel2[m2]].hash@));
    }
}

/// Decides one round: faulty torrents queue for removal, finished
/// decodable torrents not yet in flight queue for preparation, and the
/// announced in-flight list carries the old list plus the new hashes.
pub fn plan_processing(torrents: &Vec<TorrentInfo>, processing: &Vec<String>) -> (r: ProcessPlan)
    ensures
        plan_ok(torrents@, processing@, r),
{
    let n = torrents.len();
    let mut faulty: Vec<String> = Vec::new();
    let mut to_process: Vec<usize> = Vec::new();
    let mut i: usize = 0;
    while i < n
        invariant
            n == torrents@.len(),
            i <= n,
            hash_views(faulty@) == spec_faulty_hashes(torrents@.take(i as int)),
            idx_views(to_process@) == spec_to_process(torrents@.take(i as int), processing@),
        decreases n - i,
    {
        let t = &torrents[i];
        proof {
            assert(torrents@.take(i + 1).drop_last() =~= torrents@.take(i as int));
            assert(torrents@.take(i + 1).last() == torrents@[i as int]);
        }
        if t.state.is_faulty() {
            faulty.push(t.hash.clone());
            proof {
                assert(hash_views(faulty@) =~= spec_faulty_hashes(torrents@.take(i + 1)));
            }
        } else {
            proof {
                assert(hash_views(faulty@) =~= spec_faulty_hashes(torrents@.take(i + 1)));
            }
        }
        let mut in_flight = false;
        let mut k: usize = 0;
        while k < processing.len()
            invariant
                i < n == torrents@.len(),
                k <= processing@.len(),
                in_flight ==> hash_in(processing@, torrents@[i as int].hash@),
                !in_flight ==> forall|m: int|
                    0 <= m < k ==> (#[trigger] processing@[m])@ != torrents@[i as int].hash@,
            decreases processing@.len() - k,
        {
            if crate::text::str_eq(processing[k].as_str(), torrents[i].hash.as_str()) {
                in_flight = true;
                k = processing.len();
            } else {
                k = k + 1;
            }
        }
        proof {
            if !in_flight {
                assert(!hash_in(processing@, torrents@[i as int].hash@));
            }
        }
        if !in_flight && should_process(t) {
            to_process.push(i);
            proof {
                assert(idx_views(to_process@) =~= spec_to_process(
                    torrents@.take(i + 1),
                    processing@,
                ));
            }
        } else {
            proof {
                assert(idx_views(to_process@) =~= spec_to_process(
                    torrents@.take(i + 1),
                    processing@,
                ));
            }
        }
        i = i + 1;
    }
    proof {
        assert(torrents@.take(n as int) =~= torrents@);
        lemma_to_process_fresh(torrents@, processing@);
    }
    // The announced in-flight list: the old list, then the new hashes.
    let mut announced: Vec<String> = Vec::new();
    let mut k: usize = 0;
    while k < processing.len()
        invariant
            k <= processing@.len(),
            announced@.len() == k,
            forall|m: int| 0 <= m < k ==> (#[trigger] announced@[m])@ == processing@[m]@,
        decreases processing@.len() - k,
    {
        announced.push(processing[k].clone());
        k = k + 1;
    }
    let ghost sel = spec_to_process(torrents@, processing@);
    let mut m: usize = 0;
    while m < to_process.len()
        invariant
            sel == spec_to_process(torrents@, processing@),
            idx_views(to_process@) == spec_to_process(torrents@, processing@),
            forall|q: int|
                0 <= q < spec_to_process(torrents@, processing@).len() ==> {
                    let idx = #[trigger] spec_to_process(torrents@, processing@)[q];
                    0 <= idx < torrents@.len()
                },
            m <= to_process@.len(),
            announced@.len() == processing@.len() + m,
            forall|q: int| 0 <= q < processing@.len() ==> (#[trigger] announced@[q])@ == processing@[q]@,
            forall|q: int|
                0 <= q < m ==> (#[trigger] announced@[processing@.len() + q])@ == torrents@[idx_views(
                    to_process@,
                )[q]].hash@,
        decreases to_process@.len() - m,
    {
        let idx = to_process[m];
        proof {
            assert(idx_views(to_process@)[m as int] == idx as int);
            assert(0 <= sel[m as int] < torrents@.len());
        }
        announced.push(torrents[idx].hash.clone());
        m = m + 1;
    }
    let plan = ProcessPlan { faulty, to_process, announced };
    proof {
        let av = hash_views(plan.announced@);
        let rhs = hash_views(processing@) + selected_hashes(
            torrents@,
            spec_to_process(torrents@, processing@),
        );
        assert(av.len() == rhs.len());
        assert forall|j: int| 0 <= j < av.len() implies av[j] == rhs[j] by {
            if j < processing@.len() {
                assert(av[j] == plan.announced@[j]@);
                assert(rhs[j] == hash_views(processing@)[j]);
            } else {
                let q = j - processing@.len();
                assert(av[j] == plan.announced@[j]@);
                assert(plan.announced@[processing@.len() + q]@ == torrents@[idx_views(
                    plan.to_process@,
                )[q]].hash@);
                assert(processing@.len() + q == j);
                assert(rhs[j] == selected_hashes(torrents@, sel)[q]);
                assert(selected_hashes(torrents@, sel)[q] == torrents@[sel[q]].hash@);
            }
        }
        assert(av =~= rhs);
    }
    plan
}

/// The hashes to remove after one round: every torrent whose preparation
/// succeeded, plus every faulty hash. A failed preparation leaves its
/// hash out, so the next published list reconsiders it.
pub fn removal_list(
    torrents: &Vec<TorrentInfo>,
    to_process: &Vec<usize>,
    prepared_ok: &Vec<bool>,
    faulty: &Vec<String>,
) -> (r: Vec<String>)
    requires
        to_process@.len() == prepared_ok@.len(),
        forall|k: int| 0 <= k < to_process@.len() ==> (#[trigger] to_process@[k]) < torrents@.len(),
    ensures
        hash_views(r@) == spec_removals(torrents@, idx_views(to_process@), prepared_ok@)
            + hash_views(faulty@),
{
    let mut out: Vec<String> = Vec::new();
    let n = to_process.len();
    let mut k: usize = 0;
    while k < n
        invariant
            n == to_process@.len() == prepared_ok@.len(),
            forall|q: int|
                0 <= q < to_process@.len() ==> (#[trigger] to_process@[q]) < torrents@.len(),
            k <= n,
            hash_views(out@) == spec_removals(
                torrents@,
                idx_views(to_process@.take(k as int)),
                prepared_ok@.take(k as int),
            ),
        decreases n - k,
    {
        proof {
            assert(idx_views(to_process@.take(k + 1)).drop_last() =~= idx_views(
                to_process@.take(k as int),
            ));
            assert(prepared_ok@.take(k + 1).drop_last() =~= prepared_ok@.take(k as int));
        }
        if prepared_ok[k] {
            out.push(torrents[to_process[k]].hash.clone());
            proof {
                assert(hash_views(out@) =~= spec_removals(
                    torrents@,
                    idx_views(to_process@.take(k + 1)),
                    prepared_ok@.take(k + 1),
                ));
            }
        } else {
            proof {
                assert(hash_views(out@) =~= spec_removals(
                    torrents@,
                    idx_views(to_process@.take(k + 1)),
                    prepared_ok@.take(k + 1),
                ));
            }
        }
        k = k + 1;
    }
    proof {
        assert(to_process@.take(n as int) =~= to_process@);
        assert(prepared_ok@.take(n as int) =~= prepared_ok@);
    }
    let nf = faulty.len();
    let mut q: usize = 0;
    while q < nf
        invariant
            nf == faulty@.len(),
            q <= nf,
            hash_views(out@) == spec_removals(torrents@, idx_views(to_process@), prepared_ok@)
                + hash_views(faulty@.take(q as int)),
        decreases nf - q,
    {
        let ghost before = out@;
        out.push(faulty[q].clone());
        proof {
            assert(hash_views(out@) =~= hash_views(before).push(faulty@[q as int]@));
            assert(hash_views(faulty@.take(q + 1)) =~= hash_views(faulty@.take(q as int)).push(
                faulty@[q as int]@,
            ));
            assert(hash_views(out@) =~= spec_removals(
                torrents@,
                idx_views(to_process@),
                prepared_ok@,
            ) + hash_views(faulty@.take(q + 1)));
        }
        q = q + 1;
    }
    proof {
        assert(faulty@.take(nf as int) =~= faulty@);
    }
    out
}

/// The hashes of the selected torrents whose preparation succeeded.
pub open spec fn spec_removals(
    torrents: Seq<TorrentInfo>,
    idxs: Seq<int>,
    oks: Seq<bool>,
) -> Seq<Seq<char>>
    decreases idxs.len(),
{
    if idxs.len() == 0 || idxs.len() != oks.len() {
        Seq::empty()
    } else {
        let prefix = spec_removals(torrents, idxs.drop_last(), oks.drop_last());
        if oks.last() {
            prefix.push(torrents[idxs.last()].hash@)
        } else {
            prefix
        }
    }
}

/// The in-flight list to publish once a round's work is done: the old
/// list plus the hashes whose preparation succeeded. A failed
/// preparation's hash is left out, so the next published torrent list
/// reconsiders it.
pub fn retained_processing(
    torrents: &Vec<TorrentInfo>,
    to_process: &Vec<usize>,
    prepared_ok: &Vec<bool>,
    processing: &Vec<String>,
) -> (r: Vec<String>)
    requires
        to_process@.len() == prepared_ok@.len(),
        forall|k: int| 0 <= k < to_process@.len() ==> (#[trigger] to_process@[k]) < torrents@.len(),
    ensures
        hash_views(r@) == hash_views(processing@) + spec_removals(
            torrents@,
            idx_views(to_process@),
            prepared_ok@,
        ),
{
    let mut out: Vec<String> = Vec::new();
    let np = processing.len();
    let mut q: usize = 0;
    while q < np
        invariant
            np == processing@.len(),
            q <= np,
            hash_views(out@) == hash_views(processing@.take(q as int)),
        decreases np - q,
    {
        let ghost before = out@;
        out.push(processing[q].clone());
        proof {
            assert(hash_views(out@) =~= hash_views(before).push(processing@[q as int]@));
            assert(hash_views(processing@.take(q + 1)) =~= hash_views(
                processing@.take(q as int),
            ).push(processing@[q as int]@));
        }
        q = q + 1;
    }
    proof {
        assert(processing@.take(np as int) =~= processing@);
    }
    let n = to_process.len();
    let mut k: usize = 0;
    while k < n
        invariant
            n == to_process@.len() == prepared_ok@.len(),
            forall|m: int|
                0 <= m < to_process@.len() ==> (#[trigger] to_process@[m]) < torrents@.len(),
            k <= n,
            hash_views(out@) == hash_views(processing@) + spec_removals(
                torrents@,
                idx_views(to_process@.take(k as int)),
                prepared_ok@.take(k as int),
            ),
        decreases n - k,
    {
        proof {
            assert(idx_views(to_process@.take(k + 1)).drop_last() =~= idx_views(
                to_process@.take(k as int),
            ));
            assert(prepared_ok@.take(k + 1).drop_last() =~= prepared_ok@.take(k as int));
        }
        if prepared_ok[k] {
            let ghost before = out@;
            out.push(torrents[to_process[k]].hash.clone());
            proof {
                assert(hash_views(out@) =~= hash_views(before).push(
                    torrents@[to_process@[k as int] as int].hash@,
                ));
                assert(hash_views(out@) =~= hash_views(processing@) + spec_removals(
                    torrents@,
                    idx_views(to_process@.take(k + 1)),
                    prepared_ok@.take(k + 1),
                ));
            }
        } else {
            proof {
                assert(hash_views(out@) =~= hash_views(processing@) + spec_removals(
                    torrents@,
                    idx_views(to_process@.take(k + 1)),
                    prepared_ok@.take(k + 1),
                ));
            }
        }
        k = k + 1;
    }
    proof {
        assert(to_process@.take(n as int) =~= to_process@);
        assert(prepared_ok@.take(n as int) =~= prepared_ok@);
    }
    out
}

/// What a download summary shows for a torrent: the decoded title, or
/// the raw torrent name when the category does not decode; and whether
/// it still needs a file mapping.
pub fn download_summary(t: &TorrentInfo) -> (r: (String, bool))
    ensures
        match spec_decoded_category(t.category@) {
            Option::Some(sh) => r.0@ == shape_title(sh) && r.1 == shape_needs_mapping(sh),
            Option::None => r.0@ == t.name@ && r.1 == false,
        },
{
    match crate::codec::decode_category(t.category.as_str()) {
        Ok(x) => {
            let needs = x.needs_file_mapping();
            let title = x.metadata_ref().title.clone();
            proof {
                assert(shape_title(crate::codec::extra_shape_of(x)) == crate::torrent::spec_metadata(
                    x,
                ).title@);
                assert(shape_needs_mapping(crate::codec::extra_shape_of(x))
                    == crate::torrent::spec_needs_file_mapping(x));
            }
            (title, needs)
        },
        Err(_) => (t.name.clone(), false),
    }
}

} // verus!
