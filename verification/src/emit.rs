//! The join engine: one pass over the fitness table that crosses each
//! individual with its occurrences, enriches the tuples with lineage
//! and descriptor data, and yields the denormalized wide rows.
//!
//! An individual with no occurrence still yields exactly one row, with
//! the occurrence-dependent fields absent. An individual absent from
//! the phylogeny has zero parents; that tolerant policy is the adopted
//! contract. Missing fitness is the one field that does not use the
//! missing-value sentinel downstream: it renders as the number zero.

use vstd::prelude::*;

use crate::descriptor::{measures_result, read_measures};
use crate::error::{Error, ErrorKind};
use crate::fitness::{FitnessRecord, FitnessRecordView};
use crate::measures::{
    behavioural_measure_names, behavioural_measures, phenotype_measure_names, phenotype_measures,
};
use crate::phylogeny::{phylogeny_views, PhylogenyRecord, PhylogenyRecordView};
use crate::iterators::IdentifyLast;
use crate::snapshot::{entry_views, SnapshotEntry, SnapshotEntryView};
use crate::vector::Vector2;

verus! {

// ---------------------------------------------------------------------
// Inputs
// ---------------------------------------------------------------------
/// The descriptor file contents for one individual, `None` where the
/// file is absent or unreadable (which degrades to "all measures
/// absent", never to an error).
#[derive(Debug)]
pub struct DescriptorFiles {
    pub id: u64,
    pub behavioural: Option<String>,
    pub phenotype: Option<String>,
}

/// The spec-level image of a [`DescriptorFiles`].
pub ghost struct DescriptorFilesView {
    pub id: u64,
    pub behavioural: Option<Seq<char>>,
    pub phenotype: Option<Seq<char>>,
}

impl View for DescriptorFiles {
    type V = DescriptorFilesView;

    open spec fn view(&self) -> DescriptorFilesView {
        DescriptorFilesView {
            id: self.id,
            behavioural: self.behavioural.deep_view(),
            phenotype: self.phenotype.deep_view(),
        }
    }
}

/// The views of a fitness record list.
pub open spec fn fitness_views(fs: Seq<FitnessRecord>) -> Seq<FitnessRecordView> {
    fs.map_values(|f: FitnessRecord| f@)
}

/// The views of a descriptor file list.
pub open spec fn descriptor_views(ds: Seq<DescriptorFiles>) -> Seq<DescriptorFilesView> {
    ds.map_values(|d: DescriptorFiles| d@)
}

// ---------------------------------------------------------------------
// The wide row
// ---------------------------------------------------------------------
/// One denormalized output row: one per (individual, occurrence) pair,
/// or one per individual without occurrences.
#[derive(Debug)]
pub struct WideRow {
    pub id: u64,
    pub generation: Option<u64>,
    pub species: Option<u64>,
    pub fitness: Option<String>,
    pub n_parents: usize,
    pub parent1: Option<u64>,
    pub parent2: Option<u64>,
    pub pos_start: Option<Vector2<String>>,
    pub pos_end: Option<Vector2<String>>,
    pub behavioural: Vec<Option<String>>,
    pub phenotype: Vec<Option<String>>,
}

/// The spec-level image of a [`WideRow`].
pub ghost struct WideRowView {
    pub id: u64,
    pub generation: Option<u64>,
    pub species: Option<u64>,
    pub fitness: Option<Seq<char>>,
    pub n_parents: nat,
    pub parent1: Option<u64>,
    pub parent2: Option<u64>,
    pub start_x: Option<Seq<char>>,
    pub start_y: Option<Seq<char>>,
    pub end_x: Option<Seq<char>>,
    pub end_y: Option<Seq<char>>,
    pub behavioural: Seq<Option<Seq<char>>>,
    pub phenotype: Seq<Option<Seq<char>>>,
}

impl View for WideRow {
    type V = WideRowView;

    open spec fn view(&self) -> WideRowView {
        WideRowView {
            id: self.id,
            generation: self.generation,
            species: self.species,
            fitness: self.fitness.deep_view(),
            n_parents: self.n_parents as nat,
            parent1: self.parent1,
            parent2: self.parent2,
            start_x: match self.pos_start {
                Some(v) => Some(v.x@),
                None => None,
            },
            start_y: match self.pos_start {
                Some(v) => Some(v.y@),
                None => None,
            },
            end_x: match self.pos_end {
                Some(v) => Some(v.x@),
                None => None,
            },
            end_y: match self.pos_end {
                Some(v) => Some(v.y@),
                None => None,
            },
            behavioural: self.behavioural.deep_view(),
            phenotype: self.phenotype.deep_view(),
        }
    }
}

/// The views of a row list.
pub open spec fn row_views(rs: Seq<WideRow>) -> Seq<WideRowView> {
    rs.map_values(|r: WideRow| r@)
}

// ---------------------------------------------------------------------
// Lookups
// ---------------------------------------------------------------------
/// The parent list recorded for `id`: of the records naming it, the
/// last one wins, as collecting into a keyed map makes it.
pub open spec fn phylo_lookup(ph: Seq<PhylogenyRecordView>, id: u64) -> Option<Seq<u64>>
    decreases ph.len(),
{
    if ph.len() == 0 {
        None
    } else if ph.last().id == id {
        Some(ph.last().parents)
    } else {
        phylo_lookup(ph.drop_last(), id)
    }
}

/// The adopted tolerant policy: an individual absent from the
/// phylogeny has zero parents, not an error.
pub open spec fn parents_of(ph: Seq<PhylogenyRecordView>, id: u64) -> Seq<u64> {
    match phylo_lookup(ph, id) {
        Some(p) => p,
        None => Seq::empty(),
    }
}

/// The descriptor contents recorded for `id`, the last entry winning;
/// an individual without an entry has both files absent.
pub open spec fn desc_lookup(ds: Seq<DescriptorFilesView>, id: u64) -> (
    Option<Seq<char>>,
    Option<Seq<char>>,
)
    decreases ds.len(),
{
    if ds.len() == 0 {
        (None, None)
    } else if ds.last().id == id {
        (ds.last().behavioural, ds.last().phenotype)
    } else {
        desc_lookup(ds.drop_last(), id)
    }
}

/// The occurrences of `id`, in discovery order.
pub open spec fn occurrences_of(snap: Seq<SnapshotEntryView>, id: u64) -> Seq<SnapshotEntryView>
    decreases snap.len(),
{
    if snap.len() == 0 {
        Seq::empty()
    } else {
        let rest = occurrences_of(snap.drop_last(), id);
        if snap.last().individual == id {
            rest + seq![snap.last()]
        } else {
            rest
        }
    }
}

proof fn lemma_phylo_lookup_hit(ph: Seq<PhylogenyRecordView>, id: u64, k: int)
    requires
        0 <= k < ph.len(),
        ph[k].id == id,
        forall|t: int| k < t < ph.len() ==> (#[trigger] ph[t]).id != id,
    ensures
        phylo_lookup(ph, id) == Some(ph[k].parents),
    decreases ph.len(),
{
    if k == ph.len() - 1 {
    } else {
        let shorter = ph.drop_last();
        assert(forall|t: int| 0 <= t < shorter.len() ==> shorter[t] == #[trigger] ph[t]);
        lemma_phylo_lookup_hit(shorter, id, k);
    }
}

proof fn lemma_phylo_lookup_miss(ph: Seq<PhylogenyRecordView>, id: u64)
    requires
        forall|t: int| 0 <= t < ph.len() ==> (#[trigger] ph[t]).id != id,
    ensures
        phylo_lookup(ph, id) is None,
    decreases ph.len(),
{
    if ph.len() > 0 {
        let shorter = ph.drop_last();
        assert(forall|t: int| 0 <= t < shorter.len() ==> shorter[t] == #[trigger] ph[t]);
        lemma_phylo_lookup_miss(shorter, id);
    }
}

proof fn lemma_desc_lookup_hit(ds: Seq<DescriptorFilesView>, id: u64, k: int)
    requires
        0 <= k < ds.len(),
        ds[k].id == id,
        forall|t: int| k < t < ds.len() ==> (#[trigger] ds[t]).id != id,
    ensures
        desc_lookup(ds, id) == (ds[k].behavioural, ds[k].phenotype),
    decreases ds.len(),
{
    if k == ds.len() - 1 {
    } else {
        let shorter = ds.drop_last();
        assert(forall|t: int| 0 <= t < shorter.len() ==> shorter[t] == #[trigger] ds[t]);
        lemma_desc_lookup_hit(shorter, id, k);
    }
}

proof fn lemma_desc_lookup_miss(ds: Seq<DescriptorFilesView>, id: u64)
    requires
        forall|t: int| 0 <= t < ds.len() ==> (#[trigger] ds[t]).id != id,
    ensures
        desc_lookup(ds, id) == (Option::<Seq<char>>::None, Option::<Seq<char>>::None),
    decreases ds.len(),
{
    if ds.len() > 0 {
        let shorter = ds.drop_last();
        assert(forall|t: int| 0 <= t < shorter.len() ==> shorter[t] == #[trigger] ds[t]);
        lemma_desc_lookup_miss(shorter, id);
    }
}

// ---------------------------------------------------------------------
// The rows an individual yields
// ---------------------------------------------------------------------
/// The row for one fitness record and one occurrence (`None` for the
/// synthetic no-occurrence row). Every occurrence of an individual
/// shares its fitness and phylogeny data verbatim.
pub open spec fn row_for(
    f: FitnessRecordView,
    occ: Option<SnapshotEntryView>,
    ph: Seq<PhylogenyRecordView>,
    beh: Seq<Option<Seq<char>>>,
    phe: Seq<Option<Seq<char>>>,
) -> WideRowView {
    let ps = parents_of(ph, f.id);
    WideRowView {
        id: f.id,
        generation: match occ {
            Some(e) => Some(e.generation),
            None => None,
        },
        species: match occ {
            Some(e) => Some(e.species),
            None => None,
        },
        fitness: f.fitness,
        n_parents: ps.len(),
        parent1: if ps.len() >= 1 {
            Some(ps[0])
        } else {
            None
        },
        parent2: if ps.len() >= 2 {
            Some(ps[1])
        } else {
            None
        },
        start_x: match occ {
            Some(e) => Some(e.start_x),
            None => None,
        },
        start_y: match occ {
            Some(e) => Some(e.start_y),
            None => None,
        },
        end_x: match occ {
            Some(e) => Some(e.end_x),
            None => None,
        },
        end_y: match occ {
            Some(e) => Some(e.end_y),
            None => None,
        },
        behavioural: beh,
        phenotype: phe,
    }
}

/// One row per given occurrence, in order.
pub open spec fn occ_rows(
    f: FitnessRecordView,
    occs: Seq<SnapshotEntryView>,
    ph: Seq<PhylogenyRecordView>,
    beh: Seq<Option<Seq<char>>>,
    phe: Seq<Option<Seq<char>>>,
) -> Seq<WideRowView> {
    Seq::new(occs.len(), |k: int| row_for(f, Some(occs[k]), ph, beh, phe))
}

/// The rows one fitness record yields: one per occurrence, or exactly
/// one synthetic no-occurrence row.
pub open spec fn rows_for_record(
    f: FitnessRecordView,
    snap: Seq<SnapshotEntryView>,
    ph: Seq<PhylogenyRecordView>,
    beh: Seq<Option<Seq<char>>>,
    phe: Seq<Option<Seq<char>>>,
) -> Seq<WideRowView> {
    let occs = occurrences_of(snap, f.id);
    if occs.len() == 0 {
        seq![row_for(f, None, ph, beh, phe)]
    } else {
        occ_rows(f, occs, ph, beh, phe)
    }
}

/// The two descriptor categories of one individual, or the failure
/// kind when a present file is malformed or incomplete.
pub open spec fn record_measures(ds: Seq<DescriptorFilesView>, id: u64) -> Result<
    (Seq<Option<Seq<char>>>, Seq<Option<Seq<char>>>),
    ErrorKind,
> {
    let contents = desc_lookup(ds, id);
    match measures_result(contents.0, behavioural_measure_names(), true) {
        Err(k) => Err(k),
        Ok(b) => match measures_result(contents.1, phenotype_measure_names(), false) {
            Err(k) => Err(k),
            Ok(p) => Ok((b, p)),
        },
    }
}

/// The whole build: the wide rows, in fitness-table order crossed with
/// occurrence discovery order, or the first failure.
pub open spec fn build_rows_spec(
    fit: Seq<FitnessRecordView>,
    snap: Seq<SnapshotEntryView>,
    ph: Seq<PhylogenyRecordView>,
    ds: Seq<DescriptorFilesView>,
) -> Result<Seq<WideRowView>, ErrorKind>
    decreases fit.len(),
{
    if fit.len() == 0 {
        Ok(Seq::empty())
    } else {
        match build_rows_spec(fit.drop_last(), snap, ph, ds) {
            Err(k) => Err(k),
            Ok(acc) => match record_measures(ds, fit.last().id) {
                Err(k) => Err(k),
                Ok(m) => Ok(acc + rows_for_record(fit.last(), snap, ph, m.0, m.1)),
            },
        }
    }
}

/// A copy of an optional string with the same characters.
fn clone_opt_string(o: &Option<String>) -> (r: Option<String>)
    ensures
        r.deep_view() == o.deep_view(),
{
    match o {
        Some(s) => Some(s.clone()),
        None => None,
    }
}

/// A copy of a measure-value list with the same characters.
fn clone_measure_values(v: &Vec<Option<String>>) -> (r: Vec<Option<String>>)
    ensures
        r.deep_view() == v.deep_view(),
{
    let mut out: Vec<Option<String>> = Vec::new();
    let mut i: usize = 0;
    while i < v.len()
        invariant
            i <= v@.len(),
            out@.len() == i,
            forall|k: int| 0 <= k < i ==> #[trigger] out@[k].deep_view() == v@[k].deep_view(),
        decreases v@.len() - i,
    {
        out.push(clone_opt_string(&v[i]));
        i = i + 1;
    }
    proof {
        assert(out.deep_view() =~= v.deep_view());
    }
    out
}

/// Build the wide rows: for every individual of the fitness table, one
/// row per occurrence, or one synthetic no-occurrence row. Exactly
/// [`build_rows_spec`] of the input views.
pub fn build_rows(
    fit: &Vec<FitnessRecord>,
    snap: &Vec<SnapshotEntry>,
    ph: &Vec<PhylogenyRecord>,
    ds: &Vec<DescriptorFiles>,
) -> (r: Result<Vec<WideRow>, Error>)
    ensures
        ({
            let sr = build_rows_spec(
                fitness_views(fit@),
                entry_views(snap@),
                phylogeny_views(ph@),
                descriptor_views(ds@),
            );
            match r {
                Ok(v) => sr == Ok::<_, ErrorKind>(row_views(v@)),
                Err(e) => sr matches Err(k) && e.kind == k,
            }
        }),
{
    let ghost fv = fitness_views(fit@);
    let ghost sv = entry_views(snap@);
    let ghost pv = phylogeny_views(ph@);
    let ghost dsv = descriptor_views(ds@);
    let beh_names = behavioural_measures();
    let phe_names = phenotype_measures();
    let mut rows: Vec<WideRow> = Vec::new();
    let mut i: usize = 0;
    proof {
        assert(fv.subrange(0, 0) =~= Seq::<FitnessRecordView>::empty());
        assert(row_views(rows@) =~= Seq::<WideRowView>::empty());
    }
    while i < fit.len()
        invariant
            i <= fit@.len(),
            fv == fitness_views(fit@),
            sv == entry_views(snap@),
            pv == phylogeny_views(ph@),
            dsv == descriptor_views(ds@),
            fv.len() == fit@.len(),
            sv.len() == snap@.len(),
            pv.len() == ph@.len(),
            dsv.len() == ds@.len(),
            beh_names.deep_view() == behavioural_measure_names(),
            phe_names.deep_view() == phenotype_measure_names(),
            build_rows_spec(fv.subrange(0, i as int), sv, pv, dsv) == Ok::<_, ErrorKind>(
                row_views(rows@),
            ),
        decreases fit@.len() - i,
    {
        let ghost done = row_views(rows@);
        proof {
            assert(fv[i as int] == fit@[i as int]@);
            assert(fv.subrange(0, i as int + 1).drop_last() =~= fv.subrange(0, i as int));
            assert(fv.subrange(0, i as int + 1).last() == fv[i as int]);
        }
        let f = &fit[i];
        let id = f.id;
        // Descriptor contents for this individual, last entry winning.
        let mut dhit: usize = ds.len();
        let mut t: usize = 0;
        while t < ds.len()
            invariant
                t <= ds@.len(),
                dhit == ds@.len() || dhit < t,
                dsv == descriptor_views(ds@),
                dsv.len() == ds@.len(),
                dhit == ds@.len() ==> forall|u: int| 0 <= u < t ==> (#[trigger] dsv[u]).id != id,
                dhit < ds@.len() ==> dsv[dhit as int].id == id && forall|u: int|
                    dhit < u < t ==> (#[trigger] dsv[u]).id != id,
            decreases ds@.len() - t,
        {
            proof {
                assert(dsv[t as int] == ds@[t as int]@);
            }
            if ds[t].id == id {
                dhit = t;
            }
            t = t + 1;
        }
        let bc: Option<&String>;
        let pc: Option<&String>;
        if dhit < ds.len() {
            proof {
                lemma_desc_lookup_hit(dsv, id, dhit as int);
            }
            bc = ds[dhit].behavioural.as_ref();
            pc = ds[dhit].phenotype.as_ref();
        } else {
            proof {
                lemma_desc_lookup_miss(dsv, id);
            }
            bc = None;
            pc = None;
        }
        proof {
            assert(match bc {
                Option::Some(s) => Option::Some(s@),
                Option::None => Option::<Seq<char>>::None,
            } == desc_lookup(dsv, id).0);
            assert(match pc {
                Option::Some(s) => Option::Some(s@),
                Option::None => Option::<Seq<char>>::None,
            } == desc_lookup(dsv, id).1);
        }
        let beh = match read_measures(bc, &beh_names, true) {
            Ok(v) => v,
            Err(e) => {
                proof {
                    assert(record_measures(dsv, id) == Err::<
                        (Seq<Option<Seq<char>>>, Seq<Option<Seq<char>>>),
                        ErrorKind,
                    >(e.kind));
                    assert(build_rows_spec(fv.subrange(0, i as int + 1), sv, pv, dsv) == Err::<
                        Seq<WideRowView>,
                        ErrorKind,
                    >(e.kind));
                    lemma_build_err_extends(fv, sv, pv, dsv, i as int + 1);
                }
                return Err(e);
            },
        };
        let phe = match read_measures(pc, &phe_names, false) {
            Ok(v) => v,
            Err(e) => {
                proof {
                    assert(record_measures(dsv, id) == Err::<
                        (Seq<Option<Seq<char>>>, Seq<Option<Seq<char>>>),
                        ErrorKind,
                    >(e.kind));
                    assert(build_rows_spec(fv.subrange(0, i as int + 1), sv, pv, dsv) == Err::<
                        Seq<WideRowView>,
                        ErrorKind,
                    >(e.kind));
                    lemma_build_err_extends(fv, sv, pv, dsv, i as int + 1);
                }
                return Err(e);
            },
        };
        proof {
            assert(record_measures(dsv, id) == Ok::<_, ErrorKind>(
                (beh.deep_view(), phe.deep_view()),
            ));
        }
        // Lineage, under the tolerant absence policy.
        let mut phit: usize = ph.len();
        let mut t2: usize = 0;
        while t2 < ph.len()
            invariant
                t2 <= ph@.len(),
                phit == ph@.len() || phit < t2,
                pv == phylogeny_views(ph@),
                pv.len() == ph@.len(),
                phit == ph@.len() ==> forall|u: int| 0 <= u < t2 ==> (#[trigger] pv[u]).id != id,
                phit < ph@.len() ==> pv[phit as int].id == id && forall|u: int|
                    phit < u < t2 ==> (#[trigger] pv[u]).id != id,
            decreases ph@.len() - t2,
        {
            proof {
                assert(pv[t2 as int] == ph@[t2 as int]@);
            }
            if ph[t2].id == id {
                phit = t2;
            }
            t2 = t2 + 1;
        }
        let n_parents: usize;
        let parent1: Option<u64>;
        let parent2: Option<u64>;
        if phit < ph.len() {
            proof {
                lemma_phylo_lookup_hit(pv, id, phit as int);
                assert(pv[phit as int].parents == ph@[phit as int].parents.deep_view());
            }
            let plist = &ph[phit].parents;
            n_parents = plist.len();
            parent1 = if plist.len() >= 1 {
                Some(plist[0])
            } else {
                None
            };
            parent2 = if plist.len() >= 2 {
                Some(plist[1])
            } else {
                None
            };
        } else {
            proof {
                lemma_phylo_lookup_miss(pv, id);
            }
            n_parents = 0;
            parent1 = None;
            parent2 = None;
        }
        let ghost ps = parents_of(pv, id);
        proof {
            assert(n_parents == ps.len());
            assert(parent1 == (if ps.len() >= 1 {
                Some(ps[0])
            } else {
                None::<u64>
            }));
            assert(parent2 == (if ps.len() >= 2 {
                Some(ps[1])
            } else {
                None::<u64>
            }));
        }
        // One row per occurrence, in discovery order.
        let mut count: usize = 0;
        let mut k: usize = 0;
        proof {
            assert(occurrences_of(sv.subrange(0, 0), id) =~= Seq::<SnapshotEntryView>::empty());
            assert(sv.subrange(0, 0) =~= Seq::<SnapshotEntryView>::empty());
        }
        while k < snap.len()
            invariant
                k <= snap@.len(),
                sv == entry_views(snap@),
                pv == phylogeny_views(ph@),
                sv.len() == snap@.len(),
                i < fv.len(),
                fv[i as int] == fit@[i as int]@,
                *f == fit@[i as int],
                fit@[i as int].id == id,
                ps == parents_of(pv, id),
                n_parents == ps.len(),
                parent1 == (if ps.len() >= 1 {
                    Some(ps[0])
                } else {
                    None::<u64>
                }),
                parent2 == (if ps.len() >= 2 {
                    Some(ps[1])
                } else {
                    None::<u64>
                }),
                beh_names.deep_view() == behavioural_measure_names(),
                phe_names.deep_view() == phenotype_measure_names(),
                count <= k,
                count == occurrences_of(sv.subrange(0, k as int), id).len(),
                row_views(rows@) =~= done + occ_rows(
                    fv[i as int],
                    occurrences_of(sv.subrange(0, k as int), id),
                    pv,
                    beh.deep_view(),
                    phe.deep_view(),
                ),
            decreases snap@.len() - k,
        {
            proof {
                assert(sv[k as int] == snap@[k as int]@);
                assert(sv.subrange(0, k as int + 1).drop_last() =~= sv.subrange(0, k as int));
                assert(sv.subrange(0, k as int + 1).last() == sv[k as int]);
            }
            let e = &snap[k];
            if e.individual == id {
                let row = WideRow {
                    id,
                    generation: Some(e.generation),
                    species: Some(e.species),
                    fitness: clone_opt_string(&f.fitness),
                    n_parents,
                    parent1,
                    parent2,
                    pos_start: Some(
                        Vector2 { x: e.pos_start.x.clone(), y: e.pos_start.y.clone() },
                    ),
                    pos_end: Some(Vector2 { x: e.pos_end.x.clone(), y: e.pos_end.y.clone() }),
                    behavioural: clone_measure_values(&beh),
                    phenotype: clone_measure_values(&phe),
                };
                proof {
                    assert(row@ == row_for(
                        fv[i as int],
                        Some(sv[k as int]),
                        pv,
                        beh.deep_view(),
                        phe.deep_view(),
                    ));
                }
                let ghost prev = rows@;
                rows.push(row);
                proof {
                    let occs_k = occurrences_of(sv.subrange(0, k as int), id);
                    let occs_k1 = occurrences_of(sv.subrange(0, k as int + 1), id);
                    assert(rows@ == prev.push(row));
                    assert(occs_k1 =~= occs_k + seq![sv[k as int]]);
                    assert(occ_rows(fv[i as int], occs_k1, pv, beh.deep_view(), phe.deep_view())
                        =~= occ_rows(fv[i as int], occs_k, pv, beh.deep_view(), phe.deep_view())
                        + seq![row@]);
                    assert(row_views(rows@) =~= row_views(prev).push(row@));
                    assert(row_views(rows@) =~= done + occ_rows(
                        fv[i as int],
                        occs_k1,
                        pv,
                        beh.deep_view(),
                        phe.deep_view(),
                    ));
                }
                count = count + 1;
            } else {
                proof {
                    assert(occurrences_of(sv.subrange(0, k as int + 1), id) =~= occurrences_of(
                        sv.subrange(0, k as int),
                        id,
                    ));
                }
            }
            k = k + 1;
        }
        proof {
            assert(sv.subrange(0, snap@.len() as int) =~= sv);
        }
        if count == 0 {
            let row = WideRow {
                id,
                generation: None,
                species: None,
                fitness: clone_opt_string(&f.fitness),
                n_parents,
                parent1,
                parent2,
                pos_start: None,
                pos_end: None,
                behavioural: clone_measure_values(&beh),
                phenotype: clone_measure_values(&phe),
            };
            proof {
                assert(row@ == row_for(fv[i as int], None, pv, beh.deep_view(), phe.deep_view()));
            }
            let ghost prev = rows@;
            rows.push(row);
            proof {
                assert(rows@ == prev.push(row));
                assert(occurrences_of(sv, id).len() == 0);
                assert(rows_for_record(fv[i as int], sv, pv, beh.deep_view(), phe.deep_view())
                    =~= seq![row@]);
                assert(row_views(rows@) =~= done + rows_for_record(
                    fv[i as int],
                    sv,
                    pv,
                    beh.deep_view(),
                    phe.deep_view(),
                ));
            }
        } else {
            proof {
                let occs = occurrences_of(sv, id);
                assert(occs.len() > 0);
                assert(rows_for_record(fv[i as int], sv, pv, beh.deep_view(), phe.deep_view())
                    == occ_rows(fv[i as int], occs, pv, beh.deep_view(), phe.deep_view()));
                assert(row_views(rows@) =~= done + rows_for_record(
                    fv[i as int],
                    sv,
                    pv,
                    beh.deep_view(),
                    phe.deep_view(),
                ));
            }
        }
        proof {
            assert(build_rows_spec(fv.subrange(0, i as int + 1), sv, pv, dsv) == Ok::<
                _,
                ErrorKind,
            >(row_views(rows@)));
        }
        i = i + 1;
    }
    proof {
        assert(fv.subrange(0, fit@.len() as int) =~= fv);
    }
    Ok(rows)
}

// ---------------------------------------------------------------------
// Rendering
// ---------------------------------------------------------------------
/// The columns joined by single tab characters, no terminator.
pub open spec fn joined(cols: Seq<Seq<char>>) -> Seq<char>
    decreases cols.len(),
{
    if cols.len() == 0 {
        Seq::empty()
    } else if cols.len() == 1 {
        cols[0]
    } else {
        joined(cols.drop_last()) + "\t"@ + cols.last()
    }
}

/// One table line: the columns joined by tabs, terminated by a newline.
pub open spec fn tab_line(cols: Seq<Seq<char>>) -> Seq<char> {
    joined(cols) + "\n"@
}

/// A column per optional id: its decimal rendering, or the sentinel.
pub open spec fn opt_u64_col(o: Option<u64>) -> Seq<char> {
    match o {
        Some(v) => crate::text::dec_of(v as nat),
        None => "NA"@,
    }
}

/// A column per optional rendered value: the text, or the sentinel.
pub open spec fn opt_text_col(o: Option<Seq<char>>) -> Seq<char> {
    match o {
        Some(t) => t,
        None => "NA"@,
    }
}

/// The fitness column: absent or unparsable fitness renders as the
/// number zero, not as the sentinel. This asymmetry is deliberate and
/// preserved.
pub open spec fn fitness_col(o: Option<Seq<char>>) -> Seq<char> {
    match o {
        Some(t) => t,
        None => "0"@,
    }
}

/// The measure columns for one category's values, in list order.
pub open spec fn measure_cols(vals: Seq<Option<Seq<char>>>) -> Seq<Seq<char>> {
    Seq::new(vals.len(), |k: int| opt_text_col(vals[k]))
}

/// The fixed header: identity and lineage columns, then positions, then
/// every behavioral measure, then every phenotype measure.
pub open spec fn header_columns() -> Seq<Seq<char>> {
    seq![
        "robot_id"@,
        "generation"@,
        "species"@,
        "fitness"@,
        "n_parents"@,
        "parent1"@,
        "parent2"@,
        "pos_start_x"@,
        "pos_start_y"@,
        "pos_end_x"@,
        "pos_end_y"@,
    ] + behavioural_measure_names() + phenotype_measure_names()
}

/// The columns of one wide row, in the fixed order of the header.
pub open spec fn wide_columns(row: WideRowView) -> Seq<Seq<char>> {
    seq![
        crate::text::dec_of(row.id as nat),
        opt_u64_col(row.generation),
        opt_u64_col(row.species),
        fitness_col(row.fitness),
        crate::text::dec_of(row.n_parents),
        opt_u64_col(row.parent1),
        opt_u64_col(row.parent2),
        opt_text_col(row.start_x),
        opt_text_col(row.start_y),
        opt_text_col(row.end_x),
        opt_text_col(row.end_y),
    ] + measure_cols(row.behavioural) + measure_cols(row.phenotype)
}

/// The data lines of the wide table, in row order.
pub open spec fn wide_rows_text(rows: Seq<WideRowView>) -> Seq<char>
    decreases rows.len(),
{
    if rows.len() == 0 {
        Seq::empty()
    } else {
        wide_rows_text(rows.drop_last()) + tab_line(wide_columns(rows.last()))
    }
}

/// The whole wide table: the header line, then one line per row.
pub open spec fn wide_table_text(rows: Seq<WideRowView>) -> Seq<char> {
    tab_line(header_columns()) + wide_rows_text(rows)
}

/// One line of the phylogeny-edge table.
pub open spec fn lineage_line(row: WideRowView) -> Seq<char> {
    tab_line(
        seq![
            crate::text::dec_of(row.id as nat),
            crate::text::dec_of(row.n_parents),
            opt_u64_col(row.parent1),
            opt_u64_col(row.parent2),
        ],
    )
}

/// Does some row among `rows` carry `id`?
pub open spec fn contains_id(rows: Seq<WideRowView>, id: u64) -> bool {
    exists|t: int| 0 <= t < rows.len() && (#[trigger] rows[t]).id == id
}

/// The phylogeny-edge table: with `per_occurrence` one line per wide
/// row, duplicates included, as the tool has always written it; without
/// it one line per individual, the later duplicates dropped.
pub open spec fn lineage_text(rows: Seq<WideRowView>, per_occurrence: bool) -> Seq<char>
    decreases rows.len(),
{
    if rows.len() == 0 {
        Seq::empty()
    } else {
        let rest = lineage_text(rows.drop_last(), per_occurrence);
        if !per_occurrence && contains_id(rows.drop_last(), rows.last().id) {
            rest
        } else {
            rest + lineage_line(rows.last())
        }
    }
}

/// A column for an optional id: its decimal rendering, or the sentinel.
fn opt_u64_string(o: &Option<u64>) -> (r: String)
    ensures
        r@ == opt_u64_col(*o),
{
    match o {
        Some(v) => crate::text::u64_to_string(*v),
        None => String::from_str("NA"),
    }
}

/// Join owned columns with tabs, no terminator.
fn render_joined(cols: Vec<String>) -> (r: String)
    ensures
        r@ == joined(crate::snapshot::str_views(cols@)),
{
    let ghost orig = cols@;
    let ghost full = crate::snapshot::str_views(orig);
    let ghost n = full.len();
    let mut out = String::new();
    let mut it = cols.identify_last();
    while it.len() > 0
        invariant
            full == crate::snapshot::str_views(orig),
            n == full.len(),
            n == orig.len(),
            it.remaining().len() <= n,
            it.remaining() == orig.subrange(n - it.remaining().len(), n as int),
            out@ == ({
                let k = n - it.remaining().len();
                if k <= 0 {
                    Seq::<char>::empty()
                } else if k < n {
                    joined(full.subrange(0, k)) + "\t"@
                } else {
                    joined(full)
                }
            }),
        decreases it.remaining().len(),
    {
        let ghost k = n - it.remaining().len();
        match it.next() {
            Some(p) => {
                proof {
                    assert(p.1 == orig.subrange(k, n as int)[0]);
                    assert(p.1 == orig[k]);
                    assert(p.1@ == full[k]);
                    assert(orig.subrange(k, n as int).drop_first() =~= orig.subrange(
                        k + 1,
                        n as int,
                    ));
                }
                out.append(p.1.as_str());
                if !p.0 {
                    out.append("\t");
                    proof {
                        assert(k + 1 < n);
                        if k == 0 {
                            assert(full.subrange(0, 1) =~= seq![full[0]]);
                            assert(joined(full.subrange(0, 1)) == full[0]);
                            assert(out@ =~= joined(full.subrange(0, 1)) + "\t"@);
                        } else {
                            assert(full.subrange(0, k + 1).drop_last() =~= full.subrange(0, k));
                            assert(full.subrange(0, k + 1).last() == full[k]);
                            assert(out@ =~= joined(full.subrange(0, k + 1)) + "\t"@);
                        }
                    }
                } else {
                    proof {
                        assert(k + 1 == n);
                        if k == 0 {
                            assert(full.subrange(0, 1) =~= full);
                            assert(out@ =~= joined(full));
                        } else {
                            assert(full.subrange(0, k + 1).drop_last() =~= full.subrange(0, k));
                            assert(full.subrange(0, k + 1).last() == full[k]);
                            assert(full.subrange(0, k + 1) =~= full);
                            assert(out@ =~= joined(full));
                        }
                    }
                }
            },
            None => {
                proof {
                    assert(false);
                }
            },
        }
    }
    proof {
        if n == 0 {
            assert(joined(full) =~= Seq::<char>::empty());
            assert(out@ =~= joined(full));
        }
    }
    out
}

/// The header columns as owned strings, in order.
fn header_columns_exec() -> (r: Vec<String>)
    ensures
        crate::snapshot::str_views(r@) =~= header_columns(),
{
    let mut v: Vec<String> = Vec::new();
    v.push(String::from_str("robot_id"));
    v.push(String::from_str("generation"));
    v.push(String::from_str("species"));
    v.push(String::from_str("fitness"));
    v.push(String::from_str("n_parents"));
    v.push(String::from_str("parent1"));
    v.push(String::from_str("parent2"));
    v.push(String::from_str("pos_start_x"));
    v.push(String::from_str("pos_start_y"));
    v.push(String::from_str("pos_end_x"));
    v.push(String::from_str("pos_end_y"));
    let ghost base = v@;
    let mut b = behavioural_measures();
    let ghost bv = b@;
    let ghost bdv = b.deep_view();
    v.append(&mut b);
    let ghost mid = v@;
    let mut p = phenotype_measures();
    let ghost pv2 = p@;
    let ghost pdv = p.deep_view();
    v.append(&mut p);
    proof {
        assert(mid == base + bv);
        assert(v@ == mid + pv2);
        assert(behavioural_measure_names().len() == 4);
        assert(phenotype_measure_names().len() == 24);
        assert(bdv =~= behavioural_measure_names());
        assert(pdv =~= phenotype_measure_names());
        assert(bv.len() == bdv.len());
        assert(pv2.len() == pdv.len());
        assert(bdv.len() == 4 && bv.len() == 4);
        assert(pdv.len() == 24 && pv2.len() == 24);
        assert forall|t: int|
            0 <= t < crate::snapshot::str_views(v@).len() implies crate::snapshot::str_views(
            v@,
        )[t] == header_columns()[t] by {
            assert(crate::snapshot::str_views(v@)[t] == v@[t]@);
            if t < 11 {
                assert(v@[t] == base[t]);
            } else if t < 15 {
                assert(v@[t] == bv[t - 11]);
                assert(bv[t - 11]@ == bdv[t - 11]);
                assert(bdv[t - 11] == behavioural_measure_names()[t - 11]);
            } else {
                assert(v@[t] == pv2[t - 15]);
                assert(pv2[t - 15]@ == pdv[t - 15]);
                assert(pdv[t - 15] == phenotype_measure_names()[t - 15]);
            }
        }
        assert(crate::snapshot::str_views(v@) =~= header_columns());
    }
    v
}

/// The columns of one wide row as owned strings, in the fixed order.
fn wide_row_columns(row: &WideRow) -> (r: Vec<String>)
    ensures
        crate::snapshot::str_views(r@) =~= wide_columns(row@),
{
    let mut v: Vec<String> = Vec::new();
    v.push(crate::text::u64_to_string(row.id));
    v.push(opt_u64_string(&row.generation));
    v.push(opt_u64_string(&row.species));
    match &row.fitness {
        Some(s) => v.push(s.clone()),
        None => v.push(String::from_str("0")),
    }
    v.push(crate::text::u64_to_string(row.n_parents as u64));
    v.push(opt_u64_string(&row.parent1));
    v.push(opt_u64_string(&row.parent2));
    match &row.pos_start {
        Some(pos) => {
            v.push(pos.x.clone());
            v.push(pos.y.clone());
        },
        None => {
            v.push(String::from_str("NA"));
            v.push(String::from_str("NA"));
        },
    }
    match &row.pos_end {
        Some(pos) => {
            v.push(pos.x.clone());
            v.push(pos.y.clone());
        },
        None => {
            v.push(String::from_str("NA"));
            v.push(String::from_str("NA"));
        },
    }
    let ghost base = v@;
    proof {
        assert(base.len() == 11);
    }
    let mut m: usize = 0;
    while m < row.behavioural.len()
        invariant
            m <= row.behavioural@.len(),
            v@.len() == base.len() + m,
            forall|t: int| 0 <= t < base.len() ==> #[trigger] v@[t] == base[t],
            forall|t: int|
                0 <= t < m ==> #[trigger] v@[base.len() + t]@ == opt_text_col(
                    row.behavioural@[t].deep_view(),
                ),
        decreases row.behavioural@.len() - m,
    {
        match &row.behavioural[m] {
            Some(s) => v.push(s.clone()),
            None => v.push(String::from_str("NA")),
        }
        m = m + 1;
    }
    let ghost with_beh = v@;
    let mut m2: usize = 0;
    while m2 < row.phenotype.len()
        invariant
            m2 <= row.phenotype@.len(),
            with_beh.len() == base.len() + row.behavioural@.len(),
            v@.len() == with_beh.len() + m2,
            forall|t: int| 0 <= t < with_beh.len() ==> #[trigger] v@[t] == with_beh[t],
            forall|t: int|
                0 <= t < m2 ==> #[trigger] v@[with_beh.len() + t]@ == opt_text_col(
                    row.phenotype@[t].deep_view(),
                ),
        decreases row.phenotype@.len() - m2,
    {
        match &row.phenotype[m2] {
            Some(s) => v.push(s.clone()),
            None => v.push(String::from_str("NA")),
        }
        m2 = m2 + 1;
    }
    proof {
        let cols = wide_columns(row@);
        assert(row@.behavioural.len() == row.behavioural@.len());
        assert(row@.phenotype.len() == row.phenotype@.len());
        assert(cols.len() == 11 + row.behavioural@.len() + row.phenotype@.len());
        assert forall|t: int|
            0 <= t < crate::snapshot::str_views(v@).len() implies crate::snapshot::str_views(
            v@,
        )[t] == cols[t] by {
            assert(crate::snapshot::str_views(v@)[t] == v@[t]@);
            if t < 11 {
                assert(v@[t] == with_beh[t]);
                assert(with_beh[t] == base[t]);
            } else if t < 11 + row.behavioural@.len() {
                let t2 = t - 11;
                assert(v@[t] == with_beh[t]);
                assert(with_beh[base.len() + t2]@ == opt_text_col(
                    row.behavioural@[t2].deep_view(),
                ));
                assert(row@.behavioural[t2] == row.behavioural@[t2].deep_view());
                assert(cols[t] == measure_cols(row@.behavioural)[t2]);
                assert(measure_cols(row@.behavioural)[t2] == opt_text_col(row@.behavioural[t2]));
            } else {
                let u = t - 11 - row.behavioural@.len();
                assert(v@[with_beh.len() + u]@ == opt_text_col(row.phenotype@[u].deep_view()));
                assert(with_beh.len() + u == t);
                assert(row@.phenotype[u] == row.phenotype@[u].deep_view());
                assert(cols[t] == measure_cols(row@.phenotype)[u]);
                assert(measure_cols(row@.phenotype)[u] == opt_text_col(row@.phenotype[u]));
            }
        }
        assert(crate::snapshot::str_views(v@) =~= cols);
    }
    v
}

/// Render the wide measure table: the fixed header line, then one line
/// per row, every line holding the same columns in the same order.
pub fn render_wide_table(rows: &Vec<WideRow>) -> (r: String)
    ensures
        r@ == wide_table_text(row_views(rows@)),
{
    let ghost rv = row_views(rows@);
    let mut out = render_joined(header_columns_exec());
    out.append("\n");
    proof {
        assert(out@ == tab_line(header_columns()));
        assert(rv.subrange(0, 0) =~= Seq::<WideRowView>::empty());
        assert(out@ =~= tab_line(header_columns()) + wide_rows_text(rv.subrange(0, 0)));
    }
    let mut i: usize = 0;
    while i < rows.len()
        invariant
            i <= rows@.len(),
            rv == row_views(rows@),
            rv.len() == rows@.len(),
            out@ == tab_line(header_columns()) + wide_rows_text(rv.subrange(0, i as int)),
        decreases rows@.len() - i,
    {
        proof {
            assert(rv[i as int] == rows@[i as int]@);
        }
        let line = render_joined(wide_row_columns(&rows[i]));
        out.append(line.as_str());
        out.append("\n");
        proof {
            assert(rv.subrange(0, i as int + 1).drop_last() =~= rv.subrange(0, i as int));
            assert(rv.subrange(0, i as int + 1).last() == rv[i as int]);
            assert(out@ =~= tab_line(header_columns()) + wide_rows_text(
                rv.subrange(0, i as int + 1),
            ));
        }
        i = i + 1;
    }
    proof {
        assert(rv.subrange(0, rows@.len() as int) =~= rv);
    }
    out
}

/// Render the phylogeny-edge table for the given rows, under the given
/// duplication policy.
pub fn render_lineage_table(rows: &Vec<WideRow>, per_occurrence: bool) -> (r: String)
    ensures
        r@ == lineage_text(row_views(rows@), per_occurrence),
{
    let ghost rv = row_views(rows@);
    let mut out = String::new();
    proof {
        assert(rv.subrange(0, 0) =~= Seq::<WideRowView>::empty());
        assert(out@ =~= lineage_text(rv.subrange(0, 0), per_occurrence));
    }
    let mut i: usize = 0;
    while i < rows.len()
        invariant
            i <= rows@.len(),
            rv == row_views(rows@),
            rv.len() == rows@.len(),
            out@ == lineage_text(rv.subrange(0, i as int), per_occurrence),
        decreases rows@.len() - i,
    {
        proof {
            assert(rv[i as int] == rows@[i as int]@);
            assert(rv.subrange(0, i as int + 1).drop_last() =~= rv.subrange(0, i as int));
            assert(rv.subrange(0, i as int + 1).last() == rv[i as int]);
        }
        let mut seen = false;
        let ghost cur_id = rv[i as int].id;
        if !per_occurrence {
            let mut t: usize = 0;
            while t < i
                invariant
                    t <= i < rows@.len(),
                    rv == row_views(rows@),
                    rv.len() == rows@.len(),
                    cur_id == rv[i as int].id,
                    cur_id == rows@[i as int].id,
                    seen == (exists|u: int| 0 <= u < t && (#[trigger] rv[u]).id == cur_id),
                decreases i - t,
            {
                proof {
                    assert(rv[t as int] == rows@[t as int]@);
                }
                if rows[t].id == rows[i].id {
                    seen = true;
                }
                t = t + 1;
            }
        }
        proof {
            if !per_occurrence {
                assert(seen == contains_id(rv.subrange(0, i as int), rv[i as int].id)) by {
                    if seen {
                        let u = choose|u: int|
                            0 <= u < i && (#[trigger] rv[u]).id == rows@[i as int].id;
                        assert(rv.subrange(0, i as int)[u].id == rv[i as int].id);
                    } else {
                        if contains_id(rv.subrange(0, i as int), rv[i as int].id) {
                            let u = choose|u: int|
                                0 <= u < rv.subrange(0, i as int).len() && (#[trigger] rv.subrange(
                                    0,
                                    i as int,
                                )[u]).id == rv[i as int].id;
                            assert(rv[u].id == rows@[i as int].id);
                        }
                    }
                }
            }
        }
        if per_occurrence || !seen {
            let e = &rows[i];
            let mut cols: Vec<String> = Vec::new();
            cols.push(crate::text::u64_to_string(e.id));
            cols.push(crate::text::u64_to_string(e.n_parents as u64));
            cols.push(opt_u64_string(&e.parent1));
            cols.push(opt_u64_string(&e.parent2));
            proof {
                assert(crate::snapshot::str_views(cols@) =~= seq![
                    crate::text::dec_of(rv[i as int].id as nat),
                    crate::text::dec_of(rv[i as int].n_parents),
                    opt_u64_col(rv[i as int].parent1),
                    opt_u64_col(rv[i as int].parent2),
                ]);
            }
            let line = render_joined(cols);
            out.append(line.as_str());
            out.append("\n");
            proof {
                assert(out@ =~= lineage_text(rv.subrange(0, i as int + 1), per_occurrence));
            }
        } else {
            proof {
                assert(out@ =~= lineage_text(rv.subrange(0, i as int + 1), per_occurrence));
            }
        }
        i = i + 1;
    }
    proof {
        assert(rv.subrange(0, rows@.len() as int) =~= rv);
    }
    out
}

/// The two per-run tables the emitter writes beside the snapshot index.
#[derive(Debug)]
pub struct WideTables {
    pub all_measures: String,
    pub filogeny: String,
}

/// The single emission pass: build the wide rows for every individual
/// of the fitness table and render both tables. `lineage_per_occurrence`
/// chooses whether the phylogeny-edge table repeats an individual's
/// line once per occurrence (the historical behavior) or writes it
/// once per individual.
pub fn generate_all_measures(
    fit: &Vec<FitnessRecord>,
    snap: &Vec<SnapshotEntry>,
    ph: &Vec<PhylogenyRecord>,
    ds: &Vec<DescriptorFiles>,
    lineage_per_occurrence: bool,
) -> (r: Result<WideTables, Error>)
    ensures
        ({
            let sr = build_rows_spec(
                fitness_views(fit@),
                entry_views(snap@),
                phylogeny_views(ph@),
                descriptor_views(ds@),
            );
            match r {
                Ok(t) => sr matches Ok(rows) && t.all_measures@ == wide_table_text(rows)
                    && t.filogeny@ == lineage_text(rows, lineage_per_occurrence),
                Err(e) => sr matches Err(k) && e.kind == k,
            }
        }),
{
    let rows = match build_rows(fit, snap, ph, ds) {
        Ok(v) => v,
        Err(e) => {
            return Err(e);
        },
    };
    let all_measures = render_wide_table(&rows);
    let filogeny = render_lineage_table(&rows, lineage_per_occurrence);
    Ok(WideTables { all_measures, filogeny })
}

/// The name of an individual's behavioral descriptor file.
pub fn behaviour_descriptor_filename(id: u64) -> (r: String)
    ensures
        r@ == "behavior_desc_"@ + crate::text::dec_of(id as nat) + ".txt"@,
{
    let mut s = String::from_str("behavior_desc_");
    let digits = crate::text::u64_to_string(id);
    s.append(digits.as_str());
    s.append(".txt");
    s
}

/// The name of an individual's phenotype descriptor file.
pub fn phenotype_descriptor_filename(id: u64) -> (r: String)
    ensures
        r@ == "phenotype_desc_"@ + crate::text::dec_of(id as nat) + ".txt"@,
{
    let mut s = String::from_str("phenotype_desc_");
    let digits = crate::text::u64_to_string(id);
    s.append(digits.as_str());
    s.append(".txt");
    s
}

/// A failing record decides the whole build.
proof fn lemma_build_err_extends(
    fit: Seq<FitnessRecordView>,
    snap: Seq<SnapshotEntryView>,
    ph: Seq<PhylogenyRecordView>,
    ds: Seq<DescriptorFilesView>,
    m: int,
)
    requires
        0 <= m <= fit.len(),
        build_rows_spec(fit.subrange(0, m), snap, ph, ds) is Err,
    ensures
        build_rows_spec(fit, snap, ph, ds) == build_rows_spec(fit.subrange(0, m), snap, ph, ds),
    decreases fit.len(),
{
    if m == fit.len() {
        assert(fit.subrange(0, m) =~= fit);
    } else {
        let shorter = fit.drop_last();
        assert(shorter.subrange(0, m) =~= fit.subrange(0, m));
        lemma_build_err_extends(shorter, snap, ph, ds, m);
    }
}

} // verus!
