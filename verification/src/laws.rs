//! The general guarantees of the join: stated once, over the
//! specification of [`crate::emit::build_rows_spec`], and proved for
//! every input on which the build succeeds.

use vstd::prelude::*;

use crate::emit::{
    build_rows_spec, header_columns, measure_cols, occ_rows, occurrences_of, parents_of,
    record_measures, row_for, rows_for_record, wide_columns, WideRowView,
};
use crate::descriptor::measures_result;
use crate::error::ErrorKind;
use crate::fitness::FitnessRecordView;
use crate::measures::{behavioural_measure_names, phenotype_measure_names};
use crate::phylogeny::PhylogenyRecordView;
use crate::snapshot::SnapshotEntryView;
use crate::emit::DescriptorFilesView;

verus! {

/// The per-row facts the builder guarantees: the parent fields agree
/// with the phylogeny under the tolerant absence policy, and the
/// measure lists have their fixed lengths.
pub open spec fn row_well_formed(row: WideRowView, ph: Seq<PhylogenyRecordView>) -> bool {
    let ps = parents_of(ph, row.id);
    &&& row.n_parents == ps.len()
    &&& row.parent1 == (if ps.len() >= 1 {
        Some(ps[0])
    } else {
        None::<u64>
    })
    &&& row.parent2 == (if ps.len() >= 2 {
        Some(ps[1])
    } else {
        None::<u64>
    })
    &&& row.behavioural.len() == behavioural_measure_names().len()
    &&& row.phenotype.len() == phenotype_measure_names().len()
}

/// A successful category read yields one value slot per expected name.
proof fn lemma_measures_result_len(
    content: Option<Seq<char>>,
    names: Seq<Seq<char>>,
    none_token: bool,
)
    ensures
        measures_result(content, names, none_token) matches Ok(v) ==> v.len() == names.len(),
{
}

/// Every row an individual yields carries that individual's id and is
/// well-formed; and there is always at least one such row.
proof fn lemma_rows_for_record_shape(
    f: FitnessRecordView,
    snap: Seq<SnapshotEntryView>,
    ph: Seq<PhylogenyRecordView>,
    beh: Seq<Option<Seq<char>>>,
    phe: Seq<Option<Seq<char>>>,
)
    requires
        beh.len() == behavioural_measure_names().len(),
        phe.len() == phenotype_measure_names().len(),
    ensures
        rows_for_record(f, snap, ph, beh, phe).len() >= 1,
        forall|t: int|
            0 <= t < rows_for_record(f, snap, ph, beh, phe).len() ==> (#[trigger] rows_for_record(
                f,
                snap,
                ph,
                beh,
                phe,
            )[t]).id == f.id && row_well_formed(rows_for_record(f, snap, ph, beh, phe)[t], ph),
{
    let occs = occurrences_of(snap, f.id);
    if occs.len() == 0 {
    } else {
        assert(rows_for_record(f, snap, ph, beh, phe) == occ_rows(f, occs, ph, beh, phe));
        assert forall|t: int| 0 <= t < occs.len() implies (#[trigger] occ_rows(
            f,
            occs,
            ph,
            beh,
            phe,
        )[t]).id == f.id && row_well_formed(occ_rows(f, occs, ph, beh, phe)[t], ph) by {
            assert(occ_rows(f, occs, ph, beh, phe)[t] == row_for(f, Some(occs[t]), ph, beh, phe));
        }
    }
}

/// Every row of a successful build is well-formed: `n_parents` always
/// equals the true parent-list length, `parent1`/`parent2` are present
/// exactly when that index exists, and the measure lists have their
/// fixed lengths.
pub proof fn lemma_build_rows_well_formed(
    fit: Seq<FitnessRecordView>,
    snap: Seq<SnapshotEntryView>,
    ph: Seq<PhylogenyRecordView>,
    ds: Seq<DescriptorFilesView>,
    rows: Seq<WideRowView>,
)
    requires
        build_rows_spec(fit, snap, ph, ds) == Ok::<Seq<WideRowView>, ErrorKind>(rows),
    ensures
        forall|t: int| 0 <= t < rows.len() ==> row_well_formed(#[trigger] rows[t], ph),
    decreases fit.len(),
{
    if fit.len() == 0 {
    } else {
        let prev = build_rows_spec(fit.drop_last(), snap, ph, ds);
        let m = record_measures(ds, fit.last().id);
        let acc = prev->Ok_0;
        let mv = m->Ok_0;
        lemma_build_rows_well_formed(fit.drop_last(), snap, ph, ds, acc);
        lemma_measures_result_len(
            crate::emit::desc_lookup(ds, fit.last().id).0,
            behavioural_measure_names(),
            true,
        );
        lemma_measures_result_len(
            crate::emit::desc_lookup(ds, fit.last().id).1,
            phenotype_measure_names(),
            false,
        );
        lemma_rows_for_record_shape(fit.last(), snap, ph, mv.0, mv.1);
        let tail = rows_for_record(fit.last(), snap, ph, mv.0, mv.1);
        assert(rows == acc + tail);
        assert forall|t: int| 0 <= t < rows.len() implies row_well_formed(
            #[trigger] rows[t],
            ph,
        ) by {
            if t < acc.len() {
                assert(rows[t] == acc[t]);
            } else {
                assert(rows[t] == tail[t - acc.len()]);
            }
        }
    }
}

/// For every individual of the fitness table, the wide table of a
/// successful build holds at least one row with that individual's id.
pub proof fn lemma_every_fitness_id_has_row(
    fit: Seq<FitnessRecordView>,
    snap: Seq<SnapshotEntryView>,
    ph: Seq<PhylogenyRecordView>,
    ds: Seq<DescriptorFilesView>,
    rows: Seq<WideRowView>,
    i: int,
)
    requires
        build_rows_spec(fit, snap, ph, ds) == Ok::<Seq<WideRowView>, ErrorKind>(rows),
        0 <= i < fit.len(),
    ensures
        exists|t: int| 0 <= t < rows.len() && (#[trigger] rows[t]).id == fit[i].id,
    decreases fit.len(),
{
    let prev = build_rows_spec(fit.drop_last(), snap, ph, ds);
    let m = record_measures(ds, fit.last().id);
    let acc = prev->Ok_0;
    let mv = m->Ok_0;
    let tail = rows_for_record(fit.last(), snap, ph, mv.0, mv.1);
    assert(rows == acc + tail);
    lemma_measures_result_len(
        crate::emit::desc_lookup(ds, fit.last().id).0,
        behavioural_measure_names(),
        true,
    );
    lemma_measures_result_len(
        crate::emit::desc_lookup(ds, fit.last().id).1,
        phenotype_measure_names(),
        false,
    );
    lemma_rows_for_record_shape(fit.last(), snap, ph, mv.0, mv.1);
    if i == fit.len() - 1 {
        assert(tail[0].id == fit[i].id);
        assert(rows[acc.len() as int] == tail[0]);
    } else {
        lemma_every_fitness_id_has_row(fit.drop_last(), snap, ph, ds, acc, i);
        let t = choose|t: int| 0 <= t < acc.len() && (#[trigger] acc[t]).id == fit.drop_last()[i].id;
        assert(rows[t] == acc[t]);
        assert(fit.drop_last()[i] == fit[i]);
    }
}

/// The rows among `rows` that carry `id`, in order.
pub open spec fn rows_with_id(rows: Seq<WideRowView>, id: u64) -> Seq<WideRowView>
    decreases rows.len(),
{
    if rows.len() == 0 {
        Seq::empty()
    } else {
        let rest = rows_with_id(rows.drop_last(), id);
        if rows.last().id == id {
            rest + seq![rows.last()]
        } else {
            rest
        }
    }
}

/// Selecting by id distributes over concatenation.
proof fn lemma_rows_with_id_concat(a: Seq<WideRowView>, b: Seq<WideRowView>, id: u64)
    ensures
        rows_with_id(a + b, id) == rows_with_id(a, id) + rows_with_id(b, id),
    decreases b.len(),
{
    if b.len() == 0 {
        assert(a + b =~= a);
        assert(rows_with_id(a, id) + rows_with_id(b, id) =~= rows_with_id(a, id));
    } else {
        lemma_rows_with_id_concat(a, b.drop_last(), id);
        assert((a + b).drop_last() =~= a + b.drop_last());
        assert((a + b).last() == b.last());
        if b.last().id == id {
            assert(rows_with_id(a, id) + rows_with_id(b, id) =~= (rows_with_id(a, id)
                + rows_with_id(b.drop_last(), id)) + seq![b.last()]);
        }
    }
}

/// A sequence of rows that all carry a foreign id selects to nothing.
proof fn lemma_rows_with_id_none(rows: Seq<WideRowView>, id: u64)
    requires
        forall|t: int| 0 <= t < rows.len() ==> (#[trigger] rows[t]).id != id,
    ensures
        rows_with_id(rows, id) == Seq::<WideRowView>::empty(),
    decreases rows.len(),
{
    if rows.len() > 0 {
        let shorter = rows.drop_last();
        assert(forall|t: int| 0 <= t < shorter.len() ==> shorter[t] == #[trigger] rows[t]);
        lemma_rows_with_id_none(shorter, id);
    }
}

/// An id with no occurrence at all has an empty occurrence list.
proof fn lemma_occurrences_none(snap: Seq<SnapshotEntryView>, id: u64)
    requires
        forall|t: int| 0 <= t < snap.len() ==> (#[trigger] snap[t]).individual != id,
    ensures
        occurrences_of(snap, id) == Seq::<SnapshotEntryView>::empty(),
    decreases snap.len(),
{
    if snap.len() > 0 {
        let shorter = snap.drop_last();
        assert(forall|t: int| 0 <= t < shorter.len() ==> shorter[t] == #[trigger] snap[t]);
        lemma_occurrences_none(shorter, id);
    }
}

/// An individual listed once in the fitness table and absent from the
/// occurrence index yields exactly one row, whose generation, species
/// and position fields are all absent (and so render as the sentinel).
pub proof fn lemma_no_occurrence_single_row(
    fit: Seq<FitnessRecordView>,
    snap: Seq<SnapshotEntryView>,
    ph: Seq<PhylogenyRecordView>,
    ds: Seq<DescriptorFilesView>,
    rows: Seq<WideRowView>,
    i: int,
)
    requires
        build_rows_spec(fit, snap, ph, ds) == Ok::<Seq<WideRowView>, ErrorKind>(rows),
        0 <= i < fit.len(),
        forall|k: int| 0 <= k < snap.len() ==> (#[trigger] snap[k]).individual != fit[i].id,
        forall|k: int| 0 <= k < fit.len() && k != i ==> (#[trigger] fit[k]).id != fit[i].id,
    ensures
        ({
            let sel = rows_with_id(rows, fit[i].id);
            &&& sel.len() == 1
            &&& sel[0].generation is None
            &&& sel[0].species is None
            &&& sel[0].start_x is None
            &&& sel[0].start_y is None
            &&& sel[0].end_x is None
            &&& sel[0].end_y is None
        }),
    decreases fit.len(),
{
    let id = fit[i].id;
    let prev = build_rows_spec(fit.drop_last(), snap, ph, ds);
    let m = record_measures(ds, fit.last().id);
    let acc = prev->Ok_0;
    let mv = m->Ok_0;
    let tail = rows_for_record(fit.last(), snap, ph, mv.0, mv.1);
    assert(rows == acc + tail);
    lemma_rows_with_id_concat(acc, tail, id);
    lemma_measures_result_len(
        crate::emit::desc_lookup(ds, fit.last().id).0,
        behavioural_measure_names(),
        true,
    );
    lemma_measures_result_len(
        crate::emit::desc_lookup(ds, fit.last().id).1,
        phenotype_measure_names(),
        false,
    );
    lemma_rows_for_record_shape(fit.last(), snap, ph, mv.0, mv.1);
    if i == fit.len() - 1 {
        // Earlier individuals all have other ids: their rows select away.
        lemma_all_rows_have_listed_ids(fit.drop_last(), snap, ph, ds, acc);
        assert forall|t: int| 0 <= t < acc.len() implies (#[trigger] acc[t]).id != id by {
            let k = choose|k: int|
                0 <= k < fit.drop_last().len() && acc[t].id == (#[trigger] fit.drop_last()[k]).id;
            assert(fit[k] == fit.drop_last()[k]);
        }
        lemma_rows_with_id_none(acc, id);
        lemma_occurrences_none(snap, id);
        assert(tail =~= seq![row_for(fit[i], None, ph, mv.0, mv.1)]);
        assert(tail.len() == 1);
        assert(tail.last() == row_for(fit[i], None, ph, mv.0, mv.1));
        assert(tail.last().id == id);
        assert(tail.drop_last() =~= Seq::<WideRowView>::empty());
        assert(rows_with_id(tail.drop_last(), id) == Seq::<WideRowView>::empty());
        assert(rows_with_id(tail, id) =~= seq![row_for(fit[i], None, ph, mv.0, mv.1)]);
        assert(rows_with_id(rows, id) =~= seq![row_for(fit[i], None, ph, mv.0, mv.1)]);
    } else {
        lemma_no_occurrence_single_row(fit.drop_last(), snap, ph, ds, acc, i);
        assert(fit.drop_last()[i] == fit[i]);
        assert(fit.last().id != id);
        assert forall|t: int| 0 <= t < tail.len() implies (#[trigger] tail[t]).id != id by {
            assert(tail[t].id == fit.last().id);
        }
        lemma_rows_with_id_none(tail, id);
        assert(rows_with_id(rows, id) =~= rows_with_id(acc, id));
    }
}

/// Every row of a successful build carries the id of some fitness
/// record: the wide table never invents an individual.
pub proof fn lemma_all_rows_have_listed_ids(
    fit: Seq<FitnessRecordView>,
    snap: Seq<SnapshotEntryView>,
    ph: Seq<PhylogenyRecordView>,
    ds: Seq<DescriptorFilesView>,
    rows: Seq<WideRowView>,
)
    requires
        build_rows_spec(fit, snap, ph, ds) == Ok::<Seq<WideRowView>, ErrorKind>(rows),
    ensures
        forall|t: int|
            0 <= t < rows.len() ==> exists|k: int|
                0 <= k < fit.len() && (#[trigger] rows[t]).id == (#[trigger] fit[k]).id,
    decreases fit.len(),
{
    if fit.len() == 0 {
    } else {
        let prev = build_rows_spec(fit.drop_last(), snap, ph, ds);
        let m = record_measures(ds, fit.last().id);
        let acc = prev->Ok_0;
        let mv = m->Ok_0;
        let tail = rows_for_record(fit.last(), snap, ph, mv.0, mv.1);
        assert(rows == acc + tail);
        lemma_build_rows_well_formed(fit.drop_last(), snap, ph, ds, acc);
        lemma_all_rows_have_listed_ids(fit.drop_last(), snap, ph, ds, acc);
        lemma_measures_result_len(
            crate::emit::desc_lookup(ds, fit.last().id).0,
            behavioural_measure_names(),
            true,
        );
        lemma_measures_result_len(
            crate::emit::desc_lookup(ds, fit.last().id).1,
            phenotype_measure_names(),
            false,
        );
        lemma_rows_for_record_shape(fit.last(), snap, ph, mv.0, mv.1);
        assert forall|t: int| 0 <= t < rows.len() implies exists|k: int|
            0 <= k < fit.len() && (#[trigger] rows[t]).id == (#[trigger] fit[k]).id by {
            if t < acc.len() {
                assert(rows[t] == acc[t]);
                let k = choose|k: int|
                    0 <= k < fit.drop_last().len() && acc[t].id == (#[trigger] fit.drop_last()[k]).id;
                assert(fit[k] == fit.drop_last()[k]);
                assert(rows[t].id == fit[k].id);
            } else {
                assert(rows[t] == tail[t - acc.len()]);
                assert(rows[t].id == fit[fit.len() - 1].id);
            }
        }
    }
}

/// The wide table's column count and order are the header's, for every
/// row of a successful build, whatever descriptor files existed.
pub proof fn lemma_fixed_columns(
    fit: Seq<FitnessRecordView>,
    snap: Seq<SnapshotEntryView>,
    ph: Seq<PhylogenyRecordView>,
    ds: Seq<DescriptorFilesView>,
    rows: Seq<WideRowView>,
    t: int,
)
    requires
        build_rows_spec(fit, snap, ph, ds) == Ok::<Seq<WideRowView>, ErrorKind>(rows),
        0 <= t < rows.len(),
    ensures
        wide_columns(rows[t]).len() == header_columns().len(),
        header_columns().len() == 39,
{
    lemma_build_rows_well_formed(fit, snap, ph, ds, rows);
    assert(row_well_formed(rows[t], ph));
    assert(measure_cols(rows[t].behavioural).len() == rows[t].behavioural.len());
    assert(measure_cols(rows[t].phenotype).len() == rows[t].phenotype.len());
    assert(behavioural_measure_names().len() == 4);
    assert(phenotype_measure_names().len() == 24);
}

} // verus!
