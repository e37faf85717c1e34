//! The companion occurrence-resolution strategy: instead of the fixed
//! placeholder, each generation folder holds one membership file per
//! species (`species_<id>.<sep>yaml`), and every member individual is
//! fanned out to an occurrence tagged with that species id. The file's
//! declared id must match the id embedded in its name. The output
//! contract is the same as the placeholder strategy's, so the two are
//! interchangeable.

use vstd::prelude::*;

use crate::error::{Error, ErrorKind};
use crate::snapshot::{
    entry_views, generation_of, is_generation_folder, str_views, SnapshotEntry, SnapshotEntryView,
    SnapshotScan,
};
use crate::text::{all_dec_digits, all_digits_in, dec_val, has_prefix, has_suffix, parse_u64};
use crate::vector::Vector2;

verus! {

/// A species' age record, carried as the membership file declares it.
#[derive(Debug)]
pub struct SpeciesAge {
    pub evaluations: u64,
    pub generations: u64,
    pub no_improvements: u64,
}

/// One species membership record: its id, its age, and its member
/// individuals in file order.
#[derive(Debug)]
pub struct Species {
    pub id: u64,
    pub age: SpeciesAge,
    pub individuals_ids: Vec<u64>,
}

/// The spec-level image of a [`Species`].
pub ghost struct SpeciesView {
    pub id: u64,
    pub members: Seq<u64>,
}

impl View for Species {
    type V = SpeciesView;

    open spec fn view(&self) -> SpeciesView {
        SpeciesView { id: self.id, members: self.individuals_ids.deep_view() }
    }
}

/// One directory entry of a generation folder: its file name and the
/// parsed membership record, `None` when the file could not be read or
/// did not parse.
#[derive(Debug)]
pub struct SpeciesFileEntry {
    pub name: String,
    pub record: Option<Species>,
}

/// The spec-level image of a [`SpeciesFileEntry`].
pub ghost struct SpeciesFileEntryView {
    pub name: Seq<char>,
    pub record: Option<SpeciesView>,
}

impl View for SpeciesFileEntry {
    type V = SpeciesFileEntryView;

    open spec fn view(&self) -> SpeciesFileEntryView {
        SpeciesFileEntryView {
            name: self.name@,
            record: match self.record {
                Some(s) => Some(s@),
                None => None,
            },
        }
    }
}

/// What one generation folder offers under this strategy: its name and
/// its directory entries.
#[derive(Debug)]
pub struct GenerationSpeciesDir {
    pub name: String,
    pub files: Vec<SpeciesFileEntry>,
}

/// The spec-level image of a [`GenerationSpeciesDir`].
pub ghost struct GenerationSpeciesDirView {
    pub name: Seq<char>,
    pub files: Seq<SpeciesFileEntryView>,
}

impl View for GenerationSpeciesDir {
    type V = GenerationSpeciesDirView;

    open spec fn view(&self) -> GenerationSpeciesDirView {
        GenerationSpeciesDirView {
            name: self.name@,
            files: self.files@.map_values(|f: SpeciesFileEntry| f@),
        }
    }
}

/// The views of a directory list.
pub open spec fn species_dir_views(ds: Seq<GenerationSpeciesDir>) -> Seq<GenerationSpeciesDirView> {
    ds.map_values(|d: GenerationSpeciesDir| d@)
}

/// Does `name` match `species_<digits><sep>yaml`, where `<sep>` is any
/// single character?
pub open spec fn is_species_filename(name: Seq<char>) -> bool {
    &&& name.len() >= 14
    &&& name.subrange(0, 8) == "species_"@
    &&& all_dec_digits(name.subrange(8, name.len() - 5))
    &&& name.subrange(name.len() - 4, name.len() as int) == "yaml"@
}

/// The id embedded in a matching file name, unbounded.
pub open spec fn species_file_id(name: Seq<char>) -> nat {
    dec_val(name.subrange(8, name.len() - 5))
}

/// The occurrences one species record fans out: one per member, tagged
/// with the species id, with zero positions (this strategy carries no
/// positional data).
pub open spec fn species_member_entries(gen: u64, sid: u64, members: Seq<u64>) -> Seq<
    SnapshotEntryView,
> {
    Seq::new(
        members.len(),
        |i: int|
            SnapshotEntryView {
                generation: gen,
                individual: members[i],
                species: sid,
                start_x: "0"@,
                start_y: "0"@,
                end_x: "0"@,
                end_y: "0"@,
            },
    )
}

/// The occurrences of one generation folder: its membership files in
/// directory order, non-matching names ignored. A matching file whose
/// record is missing, whose embedded id does not fit, or whose declared
/// id disagrees with its name is run-fatal.
pub open spec fn species_files_entries(gen: u64, files: Seq<SpeciesFileEntryView>) -> Option<
    Seq<SnapshotEntryView>,
>
    decreases files.len(),
{
    if files.len() == 0 {
        Some(Seq::empty())
    } else {
        match species_files_entries(gen, files.drop_last()) {
            None => None,
            Some(acc) => {
                let f = files.last();
                if !is_species_filename(f.name) {
                    Some(acc)
                } else if species_file_id(f.name) > u64::MAX {
                    None
                } else {
                    match f.record {
                        None => None,
                        Some(rec) => if rec.id != species_file_id(f.name) {
                            None
                        } else {
                            Some(acc + species_member_entries(gen, rec.id, rec.members))
                        },
                    }
                }
            },
        }
    }
}

/// What one directory entry contributes under this strategy.
pub open spec fn scan_species_dir(d: GenerationSpeciesDirView) -> Option<
    (Seq<SnapshotEntryView>, Seq<Seq<char>>),
> {
    if !is_generation_folder(d.name) {
        Some((Seq::empty(), seq![d.name]))
    } else if generation_of(d.name) > u64::MAX {
        None
    } else {
        match species_files_entries((generation_of(d.name) as u64), d.files) {
            None => None,
            Some(es) => Some((es, Seq::empty())),
        }
    }
}

/// The whole scan under this strategy, folder order preserved.
pub open spec fn scan_species_dirs(ds: Seq<GenerationSpeciesDirView>) -> Option<
    (Seq<SnapshotEntryView>, Seq<Seq<char>>),
>
    decreases ds.len(),
{
    if ds.len() == 0 {
        Some((Seq::empty(), Seq::empty()))
    } else {
        match scan_species_dirs(ds.drop_last()) {
            None => None,
            Some(acc) => match scan_species_dir(ds.last()) {
                None => None,
                Some(x) => Some((acc.0 + x.0, acc.1 + x.1)),
            },
        }
    }
}

/// A failing file prefix decides the folder.
proof fn lemma_species_files_none_extends(gen: u64, files: Seq<SpeciesFileEntryView>, m: int)
    requires
        0 <= m <= files.len(),
        species_files_entries(gen, files.subrange(0, m)) is None,
    ensures
        species_files_entries(gen, files) is None,
    decreases files.len(),
{
    if m == files.len() {
        assert(files.subrange(0, m) =~= files);
    } else {
        let shorter = files.drop_last();
        assert(shorter.subrange(0, m) =~= files.subrange(0, m));
        lemma_species_files_none_extends(gen, shorter, m);
    }
}

/// A failing folder prefix decides the scan.
proof fn lemma_scan_species_none_extends(ds: Seq<GenerationSpeciesDirView>, m: int)
    requires
        0 <= m <= ds.len(),
        scan_species_dirs(ds.subrange(0, m)) is None,
    ensures
        scan_species_dirs(ds) is None,
    decreases ds.len(),
{
    if m == ds.len() {
        assert(ds.subrange(0, m) =~= ds);
    } else {
        let shorter = ds.drop_last();
        assert(shorter.subrange(0, m) =~= ds.subrange(0, m));
        lemma_scan_species_none_extends(shorter, m);
    }
}

/// Scan the generation folders with species resolution: one occurrence
/// per member of each membership file, tagged with the real species
/// id, plus the names of the skipped folders. Exactly
/// [`scan_species_dirs`] of the folder views.
pub fn generate_shaphot_ids_generations_species(dirs: &Vec<GenerationSpeciesDir>) -> (r: Result<
    SnapshotScan,
    Error,
>)
    ensures
        r is Ok <==> scan_species_dirs(species_dir_views(dirs@)) is Some,
        r matches Ok(v) ==> scan_species_dirs(species_dir_views(dirs@)) == Some(
            (entry_views(v.entries@), str_views(v.skipped@)),
        ),
        r matches Err(e) ==> e.kind == ErrorKind::Structure || e.kind == ErrorKind::Value,
{
    let ghost dv = species_dir_views(dirs@);
    let mut entries: Vec<SnapshotEntry> = Vec::new();
    let mut skipped: Vec<String> = Vec::new();
    let mut i: usize = 0;
    proof {
        assert(dv.subrange(0, 0) =~= Seq::<GenerationSpeciesDirView>::empty());
        assert(entry_views(entries@) =~= Seq::<SnapshotEntryView>::empty());
        assert(str_views(skipped@) =~= Seq::<Seq<char>>::empty());
    }
    while i < dirs.len()
        invariant
            i <= dirs@.len(),
            dv == species_dir_views(dirs@),
            dv.len() == dirs@.len(),
            scan_species_dirs(dv.subrange(0, i as int)) == Some(
                (entry_views(entries@), str_views(skipped@)),
            ),
        decreases dirs@.len() - i,
    {
        let ghost pre = (entry_views(entries@), str_views(skipped@));
        proof {
            assert(dv[i as int] == dirs@[i as int]@);
            assert(dv.subrange(0, i as int + 1).drop_last() =~= dv.subrange(0, i as int));
            assert(dv.subrange(0, i as int + 1).last() == dv[i as int]);
        }
        let d = &dirs[i];
        let nm = d.name.as_str();
        let n = nm.unicode_len();
        proof {
            reveal_strlit("generation_");
        }
        let folder_ok = has_prefix(nm, "generation_") && n > 11 && all_digits_in(nm, 11, n);
        proof {
            if nm@.len() >= 11 {
                assert(nm@.skip(11) =~= nm@.subrange(11, nm@.len() as int));
            }
            assert(folder_ok == is_generation_folder(dv[i as int].name));
        }
        if !folder_ok {
            skipped.push(d.name.clone());
            proof {
                assert(scan_species_dir(dv[i as int]) == Some(
                    (Seq::<SnapshotEntryView>::empty(), seq![dv[i as int].name]),
                ));
                assert(str_views(skipped@) =~= pre.1 + seq![dv[i as int].name]);
                assert(entry_views(entries@) =~= pre.0 + Seq::<SnapshotEntryView>::empty());
                assert(scan_species_dirs(dv.subrange(0, i as int + 1)) == Some(
                    (entry_views(entries@), str_views(skipped@)),
                ));
            }
            i = i + 1;
        } else {
            let gtext = nm.substring_char(11, n);
            proof {
                assert(gtext@ =~= nm@.skip(11));
                assert(crate::text::unsigned_digits(gtext@) == gtext@);
            }
            let g = match parse_u64(gtext) {
                Some(g) => g,
                None => {
                    proof {
                        assert(generation_of(dv[i as int].name) > u64::MAX);
                        assert(scan_species_dir(dv[i as int]) is None);
                        lemma_scan_species_none_extends(dv, i as int + 1);
                    }
                    return Err(
                        Error::with_kind(
                            ErrorKind::Value,
                            String::from_str("generation number does not fit"),
                        ),
                    );
                },
            };
            proof {
                assert(g == generation_of(dv[i as int].name));
            }
            let ghost fvs = dv[i as int].files;
            let mut j: usize = 0;
            proof {
                assert(fvs.subrange(0, 0) =~= Seq::<SpeciesFileEntryView>::empty());
                assert(species_files_entries(g, fvs.subrange(0, 0)) == Some(
                    Seq::<SnapshotEntryView>::empty(),
                ));
                assert(entry_views(entries@) =~= pre.0 + Seq::<SnapshotEntryView>::empty());
            }
            while j < d.files.len()
                invariant
                    j <= d.files@.len(),
                    dv == species_dir_views(dirs@),
                    dv.len() == dirs@.len(),
                    i < dv.len(),
                    *d == dirs@[i as int],
                    dv[i as int] == dirs@[i as int]@,
                    is_generation_folder(dv[i as int].name),
                    g as nat == generation_of(dv[i as int].name),
                    fvs == dv[i as int].files,
                    fvs.len() == d.files@.len(),
                    scan_species_dirs(dv.subrange(0, i as int)) == Some(pre),
                    str_views(skipped@) == pre.1,
                    species_files_entries(g, fvs.subrange(0, j as int)) matches Some(x)
                        && entry_views(entries@) == pre.0 + x,
                decreases d.files@.len() - j,
            {
                proof {
                    assert(fvs[j as int] == d.files@[j as int]@);
                    assert(fvs.subrange(0, j as int + 1).drop_last() =~= fvs.subrange(0, j as int));
                    assert(fvs.subrange(0, j as int + 1).last() == fvs[j as int]);
                }
                let ghost facc = choose|x: Seq<SnapshotEntryView>|
                    species_files_entries(g, fvs.subrange(0, j as int)) == Some(x)
                        && entry_views(entries@) == pre.0 + x;
                let file = &d.files[j];
                let fname = file.name.as_str();
                let fn_len = fname.unicode_len();
                proof {
                    reveal_strlit("species_");
                    reveal_strlit("yaml");
                }
                let name_ok = fn_len >= 14 && has_prefix(fname, "species_") && has_suffix(
                    fname,
                    "yaml",
                ) && all_digits_in(fname, 8, fn_len - 5);
                proof {
                    assert(name_ok == is_species_filename(fvs[j as int].name));
                }
                if !name_ok {
                    proof {
                        assert(species_files_entries(g, fvs.subrange(0, j as int + 1)) == Some(
                            facc,
                        ));
                    }
                    j = j + 1;
                } else {
                    let idtext = fname.substring_char(8, fn_len - 5);
                    proof {
                        assert(idtext@ =~= fname@.subrange(8, fname@.len() - 5));
                        assert(crate::text::unsigned_digits(idtext@) == idtext@);
                    }
                    let sid = match parse_u64(idtext) {
                        Some(v) => v,
                        None => {
                            proof {
                                assert(species_file_id(fvs[j as int].name) > u64::MAX);
                                assert(species_files_entries(
                                    g,
                                    fvs.subrange(0, j as int + 1),
                                ) is None);
                                lemma_species_files_none_extends(g, fvs, j as int + 1);
                                assert(scan_species_dir(dv[i as int]) is None);
                                lemma_scan_species_none_extends(dv, i as int + 1);
                            }
                            return Err(
                                Error::with_kind(
                                    ErrorKind::Value,
                                    String::from_str("species file number does not fit"),
                                ),
                            );
                        },
                    };
                    proof {
                        assert(sid == species_file_id(fvs[j as int].name));
                    }
                    let rec = match &file.record {
                        Some(r) => r,
                        None => {
                            proof {
                                assert(fvs[j as int].record is None);
                                assert(species_files_entries(
                                    g,
                                    fvs.subrange(0, j as int + 1),
                                ) is None);
                                lemma_species_files_none_extends(g, fvs, j as int + 1);
                                assert(scan_species_dir(dv[i as int]) is None);
                                lemma_scan_species_none_extends(dv, i as int + 1);
                            }
                            return Err(
                                Error::with_kind(
                                    ErrorKind::Value,
                                    String::from_str("could not read species membership file"),
                                ),
                            );
                        },
                    };
                    if rec.id != sid {
                        proof {
                            assert(fvs[j as int].record == Some(rec@));
                            assert(species_files_entries(
                                g,
                                fvs.subrange(0, j as int + 1),
                            ) is None);
                            lemma_species_files_none_extends(g, fvs, j as int + 1);
                            assert(scan_species_dir(dv[i as int]) is None);
                            lemma_scan_species_none_extends(dv, i as int + 1);
                        }
                        return Err(
                            Error::with_kind(
                                ErrorKind::Structure,
                                String::from_str(
                                    "species id does not match the one in the file name",
                                ),
                            ),
                        );
                    }
                    let members = &rec.individuals_ids;
                    let ghost mv = rec@.members;
                    proof {
                        assert(fvs[j as int].record == Some(rec@));
                        assert(mv.len() == members@.len());
                        assert(species_member_entries(g, sid, mv.subrange(0, 0))
                            =~= Seq::<SnapshotEntryView>::empty());
                        assert(entry_views(entries@) =~= pre.0 + facc + species_member_entries(
                            g,
                            sid,
                            mv.subrange(0, 0),
                        ));
                    }
                    let mut t: usize = 0;
                    while t < members.len()
                        invariant
                            t <= members@.len(),
                            mv.len() == members@.len(),
                            forall|u: int| 0 <= u < mv.len() ==> #[trigger] mv[u] == members@[u],
                            entry_views(entries@) =~= pre.0 + facc + species_member_entries(
                                g,
                                sid,
                                mv.subrange(0, t as int),
                            ),
                        decreases members@.len() - t,
                    {
                        let entry = SnapshotEntry {
                            generation: g,
                            individual: members[t],
                            species: sid,
                            pos_start: Vector2::default(),
                            pos_end: Vector2::default(),
                        };
                        let ghost prev = entries@;
                        entries.push(entry);
                        proof {
                            assert(entries@ == prev.push(entry));
                            assert(entry@ == species_member_entries(
                                g,
                                sid,
                                mv.subrange(0, t as int + 1),
                            )[t as int]);
                            assert(entry_views(entries@) =~= entry_views(prev).push(entry@));
                            assert(entry_views(entries@) =~= pre.0 + facc
                                + species_member_entries(g, sid, mv.subrange(0, t as int + 1)));
                        }
                        t = t + 1;
                    }
                    proof {
                        assert(mv.subrange(0, members@.len() as int) =~= mv);
                        assert(species_files_entries(g, fvs.subrange(0, j as int + 1)) == Some(
                            facc + species_member_entries(g, sid, mv),
                        ));
                        assert(entry_views(entries@) =~= pre.0 + (facc + species_member_entries(
                            g,
                            sid,
                            mv,
                        )));
                    }
                    j = j + 1;
                }
            }
            proof {
                assert(fvs.subrange(0, d.files@.len() as int) =~= fvs);
                let es = choose|x: Seq<SnapshotEntryView>|
                    species_files_entries(g, fvs) == Some(x) && entry_views(entries@) == pre.0 + x;
                assert(scan_species_dir(dv[i as int]) == Some((es, Seq::<Seq<char>>::empty())));
                assert(str_views(skipped@) =~= pre.1 + Seq::<Seq<char>>::empty());
                assert(scan_species_dirs(dv.subrange(0, i as int + 1)) == Some(
                    (entry_views(entries@), str_views(skipped@)),
                ));
            }
            i = i + 1;
        }
    }
    proof {
        assert(dv.subrange(0, dirs@.len() as int) =~= dv);
    }
    Ok(SnapshotScan { entries, skipped })
}

} // verus!
