//! The snapshot occurrence index: scanning the per-generation folders.
//!
//! Every folder named `generation_<n>` contributes one occurrence per
//! individual listed in its identifiers file; a folder with any other
//! name is skipped with a notice. An optional auxiliary file per
//! generation supplies start and end positions; its absence means "no
//! positional data" (zero vectors), while a malformed record in a
//! present file is run-fatal.

use vstd::prelude::*;

use crate::error::{ConvertError, Error, ErrorKind};
use crate::number::real_render_of;
use crate::text::{
    all_dec_digits, all_digits_in, dec_of, has_prefix, lines_of, parse_u64, split_char, split_str,
    text_lines, u64_text_val, u64_to_string, valid_u64_text,
};
use crate::vector::{python_vec2_ok, python_vec2_x, python_vec2_y, Vector2};

verus! {

// ---------------------------------------------------------------------
// Data
// ---------------------------------------------------------------------
/// One occurrence of an individual in a generation: the row of the
/// snapshot index, with the positions that the wide table will carry.
#[derive(Debug)]
pub struct SnapshotEntry {
    pub generation: u64,
    pub individual: u64,
    pub species: u64,
    pub pos_start: Vector2<String>,
    pub pos_end: Vector2<String>,
}

/// The spec-level image of a [`SnapshotEntry`].
pub ghost struct SnapshotEntryView {
    pub generation: u64,
    pub individual: u64,
    pub species: u64,
    pub start_x: Seq<char>,
    pub start_y: Seq<char>,
    pub end_x: Seq<char>,
    pub end_y: Seq<char>,
}

impl View for SnapshotEntry {
    type V = SnapshotEntryView;

    open spec fn view(&self) -> SnapshotEntryView {
        SnapshotEntryView {
            generation: self.generation,
            individual: self.individual,
            species: self.species,
            start_x: self.pos_start.x@,
            start_y: self.pos_start.y@,
            end_x: self.pos_end.x@,
            end_y: self.pos_end.y@,
        }
    }
}

/// What one generation folder offers: its name, the content of its
/// identifiers file if that file could be read, and the content of the
/// auxiliary position file if present.
#[derive(Debug)]
pub struct GenerationDir {
    pub name: String,
    pub identifiers: Option<String>,
    pub extra: Option<String>,
}

/// The spec-level image of a [`GenerationDir`].
pub ghost struct GenerationDirView {
    pub name: Seq<char>,
    pub identifiers: Option<Seq<char>>,
    pub extra: Option<Seq<char>>,
}

impl View for GenerationDir {
    type V = GenerationDirView;

    open spec fn view(&self) -> GenerationDirView {
        GenerationDirView {
            name: self.name@,
            identifiers: self.identifiers.deep_view(),
            extra: self.extra.deep_view(),
        }
    }
}

/// One record of the auxiliary per-generation file. Only the two
/// positions are consumed downstream; the candidate fields are carried
/// as the source leaves them.
#[derive(Debug)]
pub struct CosituatedData {
    pub initial_position: Vector2<String>,
    pub final_position: Vector2<String>,
    pub candidate_best: (usize, String),
    pub candidates: Vec<(usize, String)>,
}

/// The spec-level image of an auxiliary record: the individual and its
/// rendered start and end position components.
pub ghost struct ExtraRecordView {
    pub id: u64,
    pub start_x: Seq<char>,
    pub start_y: Seq<char>,
    pub end_x: Seq<char>,
    pub end_y: Seq<char>,
}

/// The result of a scan: the occurrences in discovery order, and the
/// names of the directory entries that were skipped.
#[derive(Debug)]
pub struct SnapshotScan {
    pub entries: Vec<SnapshotEntry>,
    pub skipped: Vec<String>,
}

/// The views of a sequence of entries.
pub open spec fn entry_views(es: Seq<SnapshotEntry>) -> Seq<SnapshotEntryView> {
    es.map_values(|e: SnapshotEntry| e@)
}

/// The views of a sequence of strings.
pub open spec fn str_views(ss: Seq<String>) -> Seq<Seq<char>> {
    ss.map_values(|s: String| s@)
}

// ---------------------------------------------------------------------
// The auxiliary position file
// ---------------------------------------------------------------------
/// Does one auxiliary record hold a valid id and two well-formed
/// position tuples in its first three tab-separated fields? Fields
/// beyond the third are ignored.
pub open spec fn extra_line_ok(line: Seq<char>) -> bool {
    let parts = split_char(line, '\t');
    &&& parts.len() >= 3
    &&& valid_u64_text(parts[0])
    &&& python_vec2_ok(parts[1])
    &&& python_vec2_ok(parts[2])
}

/// Is the auxiliary file well-formed: every record after the header
/// line parses?
pub open spec fn extra_text_ok(text: Seq<char>) -> bool {
    forall|i: int| 1 <= i < text_lines(text).len() ==> extra_line_ok(#[trigger] text_lines(text)[i])
}

/// The record a well-formed auxiliary line denotes.
pub open spec fn extra_record_of(line: Seq<char>) -> ExtraRecordView {
    let parts = split_char(line, '\t');
    ExtraRecordView {
        id: u64_text_val(parts[0]) as u64,
        start_x: real_render_of(python_vec2_x(parts[1])).unwrap(),
        start_y: real_render_of(python_vec2_y(parts[1])).unwrap(),
        end_x: real_render_of(python_vec2_x(parts[2])).unwrap(),
        end_y: real_render_of(python_vec2_y(parts[2])).unwrap(),
    }
}

/// The records of the auxiliary file, header line skipped.
pub open spec fn extra_records_of(text: Seq<char>) -> Seq<ExtraRecordView> {
    let lines = text_lines(text);
    if lines.len() == 0 {
        Seq::empty()
    } else {
        lines.drop_first().map_values(|l: Seq<char>| extra_record_of(l))
    }
}

/// The auxiliary record for `id`: of the records naming it, the last
/// one wins, as collecting them into a keyed map makes it.
pub open spec fn extra_lookup(recs: Seq<ExtraRecordView>, id: u64) -> Option<ExtraRecordView>
    decreases recs.len(),
{
    if recs.len() == 0 {
        None
    } else if recs.last().id == id {
        Some(recs.last())
    } else {
        extra_lookup(recs.drop_last(), id)
    }
}

proof fn lemma_extra_lookup_hit(recs: Seq<ExtraRecordView>, id: u64, k: int)
    requires
        0 <= k < recs.len(),
        recs[k].id == id,
        forall|t: int| k < t < recs.len() ==> (#[trigger] recs[t]).id != id,
    ensures
        extra_lookup(recs, id) == Some(recs[k]),
    decreases recs.len(),
{
    if k == recs.len() - 1 {
    } else {
        let shorter = recs.drop_last();
        assert(forall|t: int| 0 <= t < shorter.len() ==> shorter[t] == #[trigger] recs[t]);
        lemma_extra_lookup_hit(shorter, id, k);
    }
}

proof fn lemma_extra_lookup_miss(recs: Seq<ExtraRecordView>, id: u64)
    requires
        forall|t: int| 0 <= t < recs.len() ==> (#[trigger] recs[t]).id != id,
    ensures
        extra_lookup(recs, id) is None,
    decreases recs.len(),
{
    if recs.len() > 0 {
        let shorter = recs.drop_last();
        assert(forall|t: int| 0 <= t < shorter.len() ==> shorter[t] == #[trigger] recs[t]);
        lemma_extra_lookup_miss(shorter, id);
    }
}

/// Parse the auxiliary per-generation file. Succeeds exactly when every
/// record after the header holds a valid id and two position tuples.
/// The candidate fields are never filled from the file: every returned
/// record carries the zero best candidate and an empty candidate list,
/// as only the two positions are consumed downstream.
pub fn load_extra_cosituated_data(content: &str) -> (r: Result<Vec<(u64, CosituatedData)>, Error>)
    ensures
        r is Ok <==> extra_text_ok(content@),
        r matches Ok(v) ==> v@.len() == extra_records_of(content@).len() && forall|i: int|
            0 <= i < v@.len() ==> {
                let rec = extra_records_of(content@)[i];
                &&& (#[trigger] v@[i]).0 == rec.id
                &&& v@[i].1.initial_position.x@ == rec.start_x
                &&& v@[i].1.initial_position.y@ == rec.start_y
                &&& v@[i].1.final_position.x@ == rec.end_x
                &&& v@[i].1.final_position.y@ == rec.end_y
                &&& v@[i].1.candidate_best.0 == 0
                &&& v@[i].1.candidate_best.1@ == "0"@
                &&& v@[i].1.candidates@.len() == 0
            },
        r matches Err(e) ==> e.kind == ErrorKind::Structure || e.kind == ErrorKind::Value,
{
    let lines = lines_of(content);
    let ghost tl = text_lines(content@);
    let mut out: Vec<(u64, CosituatedData)> = Vec::new();
    if lines.len() == 0 {
        proof {
            assert(extra_records_of(content@) =~= Seq::<ExtraRecordView>::empty());
        }
        return Ok(out);
    }
    let ghost recs = extra_records_of(content@);
    proof {
        assert(recs == tl.drop_first().map_values(|l: Seq<char>| extra_record_of(l)));
        assert(recs.len() == tl.len() - 1);
    }
    let mut i: usize = 1;
    while i < lines.len()
        invariant
            1 <= i <= lines@.len(),
            tl == text_lines(content@),
            tl.len() > 0,
            recs == extra_records_of(content@),
            recs.len() == tl.len() - 1,
            forall|k: int| 0 <= k < recs.len() ==> #[trigger] recs[k] == extra_record_of(tl[k + 1]),
            lines@.len() == tl.len(),
            forall|k: int| 0 <= k < tl.len() ==> #[trigger] lines@[k]@ == tl[k],
            out@.len() == i - 1,
            forall|k: int| 1 <= k < i ==> extra_line_ok(#[trigger] tl[k]),
            forall|k: int|
                0 <= k < i - 1 ==> {
                    let rec = recs[k];
                    &&& (#[trigger] out@[k]).0 == rec.id
                    &&& out@[k].1.initial_position.x@ == rec.start_x
                    &&& out@[k].1.initial_position.y@ == rec.start_y
                    &&& out@[k].1.final_position.x@ == rec.end_x
                    &&& out@[k].1.final_position.y@ == rec.end_y
                    &&& out@[k].1.candidate_best.0 == 0
                    &&& out@[k].1.candidate_best.1@ == "0"@
                    &&& out@[k].1.candidates@.len() == 0
                },
        decreases lines@.len() - i,
    {
        let parts = split_str(lines[i].as_str(), '\t');
        let id = match parse_u64(parts[0].as_str()) {
            Some(v) => v,
            None => {
                proof {
                    assert(!extra_line_ok(tl[i as int]));
                }
                return Err(
                    Error::with_kind(
                        ErrorKind::Value,
                        String::from_str("auxiliary record id is not an unsigned integer"),
                    ),
                );
            },
        };
        if parts.len() < 2 {
            proof {
                assert(!extra_line_ok(tl[i as int]));
            }
            return Err(
                Error::with_kind(
                    ErrorKind::Structure,
                    String::from_str("auxiliary record lacks a start position"),
                ),
            );
        }
        let initial_position = match Vector2::parse_from_python(parts[1].as_str()) {
            Ok(v) => v,
            Err(e) => {
                proof {
                    assert(!extra_line_ok(tl[i as int]));
                }
                return Err(e);
            },
        };
        if parts.len() < 3 {
            proof {
                assert(!extra_line_ok(tl[i as int]));
            }
            return Err(
                Error::with_kind(
                    ErrorKind::Structure,
                    String::from_str("auxiliary record lacks an end position"),
                ),
            );
        }
        let final_position = match Vector2::parse_from_python(parts[2].as_str()) {
            Ok(v) => v,
            Err(e) => {
                proof {
                    assert(!extra_line_ok(tl[i as int]));
                }
                return Err(e);
            },
        };
        let row = CosituatedData {
            initial_position,
            final_position,
            candidate_best: (0, String::from_str("0")),
            candidates: Vec::new(),
        };
        proof {
            assert(extra_line_ok(tl[i as int]));
            assert(recs[i - 1] == extra_record_of(tl[i as int]));
        }
        out.push((id, row));
        i = i + 1;
    }
    proof {
        assert(extra_text_ok(content@));
    }
    Ok(out)
}

// ---------------------------------------------------------------------
// Folder names
// ---------------------------------------------------------------------
/// Does `name` match `generation_<digits>` exactly?
pub open spec fn is_generation_folder(name: Seq<char>) -> bool {
    &&& name.len() > 11
    &&& name.subrange(0, 11) == "generation_"@
    &&& all_dec_digits(name.skip(11))
}

/// The number a matching folder name carries, unbounded.
pub open spec fn generation_of(name: Seq<char>) -> nat {
    crate::text::dec_val(name.skip(11))
}

// ---------------------------------------------------------------------
// The identifiers file
// ---------------------------------------------------------------------
/// Is every line of the identifiers file a valid unsigned id?
pub open spec fn ids_text_ok(text: Seq<char>) -> bool {
    forall|i: int| 0 <= i < text_lines(text).len() ==> valid_u64_text(#[trigger] text_lines(text)[i])
}

/// The ids listed, in file order.
pub open spec fn ids_of(text: Seq<char>) -> Seq<u64> {
    text_lines(text).map_values(|l: Seq<char>| u64_text_val(l) as u64)
}

// ---------------------------------------------------------------------
// The scan
// ---------------------------------------------------------------------
/// The occurrence one listed individual gains in one generation: the
/// auxiliary positions when a record names it, zero vectors otherwise.
pub open spec fn entry_for(gen: u64, id: u64, extras: Seq<ExtraRecordView>) -> SnapshotEntryView {
    match extra_lookup(extras, id) {
        Some(r) => SnapshotEntryView {
            generation: gen,
            individual: id,
            species: 0,
            start_x: r.start_x,
            start_y: r.start_y,
            end_x: r.end_x,
            end_y: r.end_y,
        },
        None => SnapshotEntryView {
            generation: gen,
            individual: id,
            species: 0,
            start_x: "0"@,
            start_y: "0"@,
            end_x: "0"@,
            end_y: "0"@,
        },
    }
}

/// The occurrences one generation folder contributes, in identifier
/// order.
pub open spec fn dir_entries(gen: u64, ids: Seq<u64>, extras: Seq<ExtraRecordView>) -> Seq<
    SnapshotEntryView,
> {
    Seq::new(ids.len(), |i: int| entry_for(gen, ids[i], extras))
}

/// What one directory entry contributes to the scan: occurrences and
/// skipped names on success, `None` when the run must abort.
pub open spec fn scan_dir(d: GenerationDirView) -> Option<
    (Seq<SnapshotEntryView>, Seq<Seq<char>>),
> {
    if !is_generation_folder(d.name) {
        Some((Seq::empty(), seq![d.name]))
    } else if generation_of(d.name) > u64::MAX {
        None
    } else if d.extra matches Some(t) && !extra_text_ok(t) {
        None
    } else {
        let extras = match d.extra {
            Some(t) => extra_records_of(t),
            None => Seq::empty(),
        };
        match d.identifiers {
            None => None,
            Some(itext) => if !ids_text_ok(itext) {
                None
            } else {
                Some(
                    (
                        dir_entries((generation_of(d.name) as u64), ids_of(itext), extras),
                        Seq::empty(),
                    ),
                )
            },
        }
    }
}

/// The whole scan, folder list order preserved; the first failing
/// folder aborts the run.
pub open spec fn scan_dirs(ds: Seq<GenerationDirView>) -> Option<
    (Seq<SnapshotEntryView>, Seq<Seq<char>>),
>
    decreases ds.len(),
{
    if ds.len() == 0 {
        Some((Seq::empty(), Seq::empty()))
    } else {
        match scan_dirs(ds.drop_last()) {
            None => None,
            Some(acc) => match scan_dir(ds.last()) {
                None => None,
                Some(x) => Some((acc.0 + x.0, acc.1 + x.1)),
            },
        }
    }
}

/// The views of a directory list.
pub open spec fn dir_views(ds: Seq<GenerationDir>) -> Seq<GenerationDirView> {
    ds.map_values(|d: GenerationDir| d@)
}

/// A failing prefix decides the whole scan.
proof fn lemma_scan_none_extends(ds: Seq<GenerationDirView>, m: int)
    requires
        0 <= m <= ds.len(),
        scan_dirs(ds.subrange(0, m)) is None,
    ensures
        scan_dirs(ds) is None,
    decreases ds.len(),
{
    if m == ds.len() {
        assert(ds.subrange(0, m) =~= ds);
    } else {
        let shorter = ds.drop_last();
        assert(shorter.subrange(0, m) =~= ds.subrange(0, m));
        lemma_scan_none_extends(shorter, m);
    }
}

/// Scan the generation folders, in the order given: one occurrence per
/// listed individual, tagged with the placeholder species id `0`, plus
/// the names of the folders that were skipped. Exactly [`scan_dirs`] of
/// the folder views.
pub fn generate_shaphot_ids(dirs: &Vec<GenerationDir>) -> (r: Result<SnapshotScan, Error>)
    ensures
        r is Ok <==> scan_dirs(dir_views(dirs@)) is Some,
        r matches Ok(v) ==> scan_dirs(dir_views(dirs@)) == Some(
            (entry_views(v.entries@), str_views(v.skipped@)),
        ),
        r matches Err(e) ==> e.kind == ErrorKind::Io || e.kind == ErrorKind::Structure || e.kind
            == ErrorKind::Value,
{
    let ghost dv = dir_views(dirs@);
    let mut entries: Vec<SnapshotEntry> = Vec::new();
    let mut skipped: Vec<String> = Vec::new();
    let mut i: usize = 0;
    proof {
        assert(dv.subrange(0, 0) =~= Seq::<GenerationDirView>::empty());
        assert(entry_views(entries@) =~= Seq::<SnapshotEntryView>::empty());
        assert(str_views(skipped@) =~= Seq::<Seq<char>>::empty());
    }
    while i < dirs.len()
        invariant
            i <= dirs@.len(),
            dv == dir_views(dirs@),
            dv.len() == dirs@.len(),
            scan_dirs(dv.subrange(0, i as int)) == Some(
                (entry_views(entries@), str_views(skipped@)),
            ),
        decreases dirs@.len() - i,
    {
        let ghost pre = (entry_views(entries@), str_views(skipped@));
        proof {
            assert(dv[i as int] == dirs@[i as int]@);
            assert(dv.subrange(0, i as int + 1).drop_last() =~= dv.subrange(0, i as int));
            assert(dv.subrange(0, i as int + 1).last() == dv[i as int]);
        }
        let d = &dirs[i];
        let nm = d.name.as_str();
        let n = nm.unicode_len();
        proof {
            reveal_strlit("generation_");
        }
        let folder_ok = has_prefix(nm, "generation_") && n > 11 && all_digits_in(nm, 11, n);
        proof {
            if nm@.len() >= 11 {
                assert(nm@.skip(11) =~= nm@.subrange(11, nm@.len() as int));
            }
            assert(folder_ok == is_generation_folder(dv[i as int].name));
        }
        if !folder_ok {
            skipped.push(d.name.clone());
            proof {
                assert(scan_dir(dv[i as int]) == Some(
                    (Seq::<SnapshotEntryView>::empty(), seq![dv[i as int].name]),
                ));
                assert(str_views(skipped@) =~= pre.1 + seq![dv[i as int].name]);
                assert(entry_views(entries@) =~= pre.0 + Seq::<SnapshotEntryView>::empty());
                assert(scan_dirs(dv.subrange(0, i as int + 1)) == Some(
                    (entry_views(entries@), str_views(skipped@)),
                ));
            }
            i = i + 1;
        } else {
            let gtext = nm.substring_char(11, n);
            proof {
                assert(gtext@ =~= nm@.skip(11));
                assert(crate::text::unsigned_digits(gtext@) == gtext@);
            }
            let g = match parse_u64(gtext) {
                Some(g) => g,
                None => {
                    proof {
                        assert(generation_of(dv[i as int].name) > u64::MAX);
                        assert(scan_dir(dv[i as int]) is None);
                        lemma_scan_none_extends(dv, i as int + 1);
                    }
                    return Err(
                        Error::with_kind(
                            ErrorKind::Value,
                            String::from_str("generation number does not fit"),
                        ),
                    );
                },
            };
            proof {
                assert(g == generation_of(dv[i as int].name));
            }
            let extras: Vec<(u64, CosituatedData)> = match &d.extra {
                Some(t) => {
                    match load_extra_cosituated_data(t.as_str()) {
                        Ok(v) => v,
                        Err(e) => {
                            proof {
                                assert(dv[i as int].extra == Some(t@));
                                assert(scan_dir(dv[i as int]) is None);
                                lemma_scan_none_extends(dv, i as int + 1);
                            }
                            return Err(e);
                        },
                    }
                },
                None => Vec::new(),
            };
            let ghost xrv = match dv[i as int].extra {
                Some(t) => extra_records_of(t),
                None => Seq::<ExtraRecordView>::empty(),
            };
            proof {
                assert(extras@.len() == xrv.len());
                assert(forall|k: int|
                    0 <= k < xrv.len() ==> (#[trigger] extras@[k]).0 == xrv[k].id
                        && extras@[k].1.initial_position.x@ == xrv[k].start_x
                        && extras@[k].1.initial_position.y@ == xrv[k].start_y
                        && extras@[k].1.final_position.x@ == xrv[k].end_x
                        && extras@[k].1.final_position.y@ == xrv[k].end_y);
            }
            let itext = match &d.identifiers {
                Some(t) => t,
                None => {
                    proof {
                        assert(dv[i as int].identifiers is None);
                        assert(scan_dir(dv[i as int]) is None);
                        lemma_scan_none_extends(dv, i as int + 1);
                    }
                    return Err(
                        ErrorKind::Io.into_error(
                            String::from_str("could not read the identifiers file"),
                        ),
                    );
                },
            };
            let id_lines = lines_of(itext.as_str());
            let ghost itl = text_lines(itext@);
            let mut ids: Vec<u64> = Vec::new();
            let mut k: usize = 0;
            while k < id_lines.len()
                invariant
                    k <= id_lines@.len(),
                    dv == dir_views(dirs@),
                    dv.len() == dirs@.len(),
                    i < dv.len(),
                    is_generation_folder(dv[i as int].name),
                    generation_of(dv[i as int].name) <= u64::MAX,
                    dv[i as int].extra matches Some(t) ==> extra_text_ok(t),
                    dv[i as int].identifiers == Some(itext@),
                    itl == text_lines(itext@),
                    id_lines@.len() == itl.len(),
                    forall|t: int| 0 <= t < itl.len() ==> #[trigger] id_lines@[t]@ == itl[t],
                    ids@.len() == k,
                    forall|t: int| 0 <= t < k ==> valid_u64_text(#[trigger] itl[t]),
                    forall|t: int| 0 <= t < k ==> #[trigger] ids@[t] == u64_text_val(itl[t]) as u64,
                    scan_dirs(dv.subrange(0, i as int)) is Some,
                decreases id_lines@.len() - k,
            {
                match parse_u64(id_lines[k].as_str()) {
                    Some(v) => {
                        ids.push(v);
                    },
                    None => {
                        proof {
                            assert(!valid_u64_text(text_lines(itext@)[k as int]));
                            assert(!ids_text_ok(itext@));
                            assert(scan_dir(dv[i as int]) is None);
                            assert(dv.subrange(0, i as int + 1).drop_last() =~= dv.subrange(
                                0,
                                i as int,
                            ));
                            assert(dv.subrange(0, i as int + 1).last() == dv[i as int]);
                            lemma_scan_none_extends(dv, i as int + 1);
                        }
                        return Err(
                            Error::with_kind(
                                ErrorKind::Value,
                                String::from_str("identifier is not an unsigned integer"),
                            ),
                        );
                    },
                }
                k = k + 1;
            }
            proof {
                assert(ids_text_ok(itext@));
                assert(ids@ =~= ids_of(itext@));
            }
            let mut k2: usize = 0;
            while k2 < ids.len()
                invariant
                    k2 <= ids@.len(),
                    dv == dir_views(dirs@),
                    dv.len() == dirs@.len(),
                    i < dv.len(),
                    is_generation_folder(dv[i as int].name),
                    g as nat == generation_of(dv[i as int].name),
                    dv[i as int].extra matches Some(t) ==> extra_text_ok(t),
                    xrv == (match dv[i as int].extra {
                        Some(t) => extra_records_of(t),
                        None => Seq::<ExtraRecordView>::empty(),
                    }),
                    dv[i as int].identifiers == Some(itext@),
                    ids_text_ok(itext@),
                    ids@ == ids_of(itext@),
                    scan_dirs(dv.subrange(0, i as int)) == Some(pre),
                    extras@.len() == xrv.len(),
                    forall|t: int|
                        0 <= t < xrv.len() ==> (#[trigger] extras@[t]).0 == xrv[t].id
                            && extras@[t].1.initial_position.x@ == xrv[t].start_x
                            && extras@[t].1.initial_position.y@ == xrv[t].start_y
                            && extras@[t].1.final_position.x@ == xrv[t].end_x
                            && extras@[t].1.final_position.y@ == xrv[t].end_y,
                    entry_views(entries@) =~= pre.0 + dir_entries(g, ids@.subrange(0, k2 as int), xrv),
                    str_views(skipped@) == pre.1,
                decreases ids@.len() - k2,
            {
                let id = ids[k2];
                let mut hit: usize = extras.len();
                let mut t: usize = 0;
                while t < extras.len()
                    invariant
                        t <= extras@.len(),
                        hit == extras@.len() || hit < t,
                        extras@.len() == xrv.len(),
                        forall|u: int|
                            0 <= u < xrv.len() ==> (#[trigger] extras@[u]).0 == xrv[u].id,
                        hit == extras@.len() ==> forall|u: int|
                            0 <= u < t ==> (#[trigger] extras@[u]).0 != id,
                        hit < extras@.len() ==> extras@[hit as int].0 == id && forall|u: int|
                            hit < u < t ==> (#[trigger] extras@[u]).0 != id,
                    decreases extras@.len() - t,
                {
                    if extras[t].0 == id {
                        hit = t;
                    }
                    t = t + 1;
                }
                let entry: SnapshotEntry;
                if hit < extras.len() {
                    proof {
                        assert forall|u: int| hit < u < xrv.len() implies (#[trigger] xrv[u]).id
                            != id by {
                            assert(extras@[u].0 == xrv[u].id);
                        }
                        assert(xrv[hit as int].id == id);
                        lemma_extra_lookup_hit(xrv, id, hit as int);
                    }
                    let row = &extras[hit].1;
                    entry = SnapshotEntry {
                        generation: g,
                        individual: id,
                        species: 0,
                        pos_start: Vector2 {
                            x: row.initial_position.x.clone(),
                            y: row.initial_position.y.clone(),
                        },
                        pos_end: Vector2 {
                            x: row.final_position.x.clone(),
                            y: row.final_position.y.clone(),
                        },
                    };
                } else {
                    proof {
                        assert forall|u: int| 0 <= u < xrv.len() implies (#[trigger] xrv[u]).id
                            != id by {
                            assert(extras@[u].0 == xrv[u].id);
                        }
                        lemma_extra_lookup_miss(xrv, id);
                    }
                    entry = SnapshotEntry {
                        generation: g,
                        individual: id,
                        species: 0,
                        pos_start: Vector2::default(),
                        pos_end: Vector2::default(),
                    };
                }
                proof {
                    assert(entry@ == entry_for(g, id, xrv));
                }
                let ghost prev = entries@;
                entries.push(entry);
                proof {
                    let cur = dir_entries(g, ids@.subrange(0, k2 as int + 1), xrv);
                    let old_part = dir_entries(g, ids@.subrange(0, k2 as int), xrv);
                    assert(entries@ == prev.push(entry));
                    assert(old_part.len() == k2 as int);
                    assert(cur.len() == k2 + 1);
                    assert(entry_views(prev).len() == prev.len());
                    assert(prev.len() == pre.0.len() + k2);
                    assert(entry_views(entries@).len() == prev.len() + 1);
                    assert forall|t: int| 0 <= t < entry_views(entries@).len() implies entry_views(
                        entries@,
                    )[t] == (pre.0 + cur)[t] by {
                        assert(entry_views(entries@)[t] == entries@[t]@);
                        if t < prev.len() {
                            assert(entries@[t] == prev[t]);
                            assert(entry_views(prev)[t] == prev[t]@);
                            assert(entry_views(prev)[t] == (pre.0 + old_part)[t]);
                            if t >= pre.0.len() {
                                assert(old_part[t - pre.0.len()] == entry_for(
                                    g,
                                    ids@.subrange(0, k2 as int)[t - pre.0.len()],
                                    xrv,
                                ));
                                assert(cur[t - pre.0.len()] == entry_for(
                                    g,
                                    ids@.subrange(0, k2 as int + 1)[t - pre.0.len()],
                                    xrv,
                                ));
                            }
                        } else {
                            assert(entries@[t] == entry);
                            assert(cur[t - pre.0.len()] == entry_for(
                                g,
                                ids@.subrange(0, k2 as int + 1)[t - pre.0.len()],
                                xrv,
                            ));
                            assert(ids@.subrange(0, k2 as int + 1)[k2 as int] == ids@[k2 as int]);
                        }
                    }
                    assert(entry_views(entries@) =~= pre.0 + cur);
                }
                k2 = k2 + 1;
            }
            proof {
                assert(dv.subrange(0, i as int + 1).drop_last() =~= dv.subrange(0, i as int));
                assert(dv.subrange(0, i as int + 1).last() == dv[i as int]);
                assert(ids@.subrange(0, ids@.len() as int) =~= ids@);
                assert(scan_dir(dv[i as int]) == Some(
                    (dir_entries(g, ids_of(itext@), xrv), Seq::<Seq<char>>::empty()),
                ));
                assert(entry_views(entries@) =~= pre.0 + dir_entries(g, ids_of(itext@), xrv));
                assert(str_views(skipped@) =~= pre.1 + Seq::<Seq<char>>::empty());
                assert(scan_dirs(dv.subrange(0, i as int + 1)) == Some(
                    (entry_views(entries@), str_views(skipped@)),
                ));
            }
            i = i + 1;
        }
    }
    proof {
        assert(dv.subrange(0, dirs@.len() as int) =~= dv);
    }
    Ok(SnapshotScan { entries, skipped })
}

// ---------------------------------------------------------------------
// The snapshot index table
// ---------------------------------------------------------------------
/// One row of the snapshot index table.
pub open spec fn index_row_text(e: SnapshotEntryView) -> Seq<char> {
    dec_of(e.generation as nat) + "\t"@ + dec_of(e.individual as nat) + "\t"@ + dec_of(
        e.species as nat,
    ) + "\n"@
}

/// The rows of the snapshot index table, in entry order.
pub open spec fn index_rows_text(es: Seq<SnapshotEntryView>) -> Seq<char>
    decreases es.len(),
{
    if es.len() == 0 {
        Seq::empty()
    } else {
        index_rows_text(es.drop_last()) + index_row_text(es.last())
    }
}

/// The whole snapshot index table: header, then one row per occurrence.
pub open spec fn index_table_text(es: Seq<SnapshotEntryView>) -> Seq<char> {
    "generation\trobot_id\tspecies_id\n"@ + index_rows_text(es)
}

/// Render the snapshot index table for the scanned occurrences.
pub fn render_snapshot_index(entries: &Vec<SnapshotEntry>) -> (r: String)
    ensures
        r@ == index_table_text(entry_views(entries@)),
{
    let ghost ev = entry_views(entries@);
    let mut out = String::from_str("generation\trobot_id\tspecies_id\n");
    let mut i: usize = 0;
    proof {
        assert(ev.subrange(0, 0) =~= Seq::<SnapshotEntryView>::empty());
    }
    while i < entries.len()
        invariant
            i <= entries@.len(),
            ev == entry_views(entries@),
            ev.len() == entries@.len(),
            out@ == "generation\trobot_id\tspecies_id\n"@ + index_rows_text(
                ev.subrange(0, i as int),
            ),
        decreases entries@.len() - i,
    {
        let e = &entries[i];
        let gen_text = u64_to_string(e.generation);
        let ind_text = u64_to_string(e.individual);
        let species_text = u64_to_string(e.species);
        out.append(gen_text.as_str());
        out.append("\t");
        out.append(ind_text.as_str());
        out.append("\t");
        out.append(species_text.as_str());
        out.append("\n");
        proof {
            assert(ev.subrange(0, i as int + 1).drop_last() =~= ev.subrange(0, i as int));
            assert(ev.subrange(0, i as int + 1).last() == ev[i as int]);
            assert(ev[i as int] == entries@[i as int]@);
            assert(out@ =~= "generation\trobot_id\tspecies_id\n"@ + index_rows_text(
                ev.subrange(0, i as int + 1),
            ));
        }
        i = i + 1;
    }
    proof {
        assert(ev.subrange(0, entries@.len() as int) =~= ev);
    }
    out
}

} // verus!
