//! The phylogeny loader: one `parents_<id>.<sep>yaml` file per
//! individual, each holding a loosely-typed `parents` field that may be
//! null, a single integer, a list of integers, or a comma-separated
//! string of integers. Any other shape is a fatal parse error; the
//! dispatch is total over [`ParentsShape`] and never coerces silently.
//!
//! The raw text uses a non-standard colon spacing and a bare `None`
//! token for null; both are normalized by verified text rewriting before
//! the generic YAML parse. The parse itself is the one trusted step: its
//! outcome on a given text is named by [`parents_outcome_of`], so every
//! contract downstream is exact over that name.

use vstd::prelude::*;

use yaml_rust::{Yaml, YamlLoader};

use crate::error::{ConvertError, Error, ErrorKind};
use crate::text::{
    all_dec_digits, all_digits_in, dec_val, has_prefix, has_suffix, parse_u64, split_char,
    split_str, str_eq, u64_text_val, valid_u64_text,
};

verus! {

// ---------------------------------------------------------------------
// The shape of the `parents` field
// ---------------------------------------------------------------------
/// The shape the YAML parse found for the `parents` field, one variant
/// per outcome, resolved once at load time so the fatal-vs-tolerant
/// distinction is explicit per variant.
#[derive(Debug)]
pub enum ParentsShape {
    /// The text is not parseable YAML at all.
    Unparseable,
    /// The text parsed but holds no document.
    NoDocument,
    /// The field is null or missing in a null document.
    Null,
    /// A single integer parent.
    Integer(i64),
    /// A list whose nodes are all integers.
    IntList(Vec<i64>),
    /// A list with at least one non-integer node: fatal.
    NonIntList,
    /// A scalar string, expected to hold comma-separated integers.
    Text(String),
    /// A real number: fatal.
    Real,
    /// A boolean: fatal.
    Boolean,
    /// A nested mapping: fatal.
    Mapping,
    /// An alias node: fatal.
    Alias,
    /// A missing key or other bad value: fatal.
    BadValue,
}

/// The spec-level image of a [`ParentsShape`].
pub ghost enum ParsedParents {
    Unparseable,
    NoDocument,
    Null,
    Integer(i64),
    IntList(Seq<i64>),
    NonIntList,
    Text(Seq<char>),
    Real,
    Boolean,
    Mapping,
    Alias,
    BadValue,
}

impl View for ParentsShape {
    type V = ParsedParents;

    open spec fn view(&self) -> ParsedParents {
        match self {
            ParentsShape::Unparseable => ParsedParents::Unparseable,
            ParentsShape::NoDocument => ParsedParents::NoDocument,
            ParentsShape::Null => ParsedParents::Null,
            ParentsShape::Integer(i) => ParsedParents::Integer(*i),
            ParentsShape::IntList(v) => ParsedParents::IntList(v.deep_view()),
            ParentsShape::NonIntList => ParsedParents::NonIntList,
            ParentsShape::Text(s) => ParsedParents::Text(s@),
            ParentsShape::Real => ParsedParents::Real,
            ParentsShape::Boolean => ParsedParents::Boolean,
            ParentsShape::Mapping => ParsedParents::Mapping,
            ParentsShape::Alias => ParsedParents::Alias,
            ParentsShape::BadValue => ParsedParents::BadValue,
        }
    }
}

/// What the YAML parse finds for the `parents` field of the text `s`:
/// the outcome of loading `s`, taking the first document's `parents`
/// entry, and reading each list node as an integer. A fixed function of
/// `s` alone.
pub uninterp spec fn parents_outcome_of(s: Seq<char>) -> ParsedParents;

/// Relies on `yaml_rust::YamlLoader::load_from_str` (the YAML parse,
/// a function of the text alone), the `Index<&str>` impl of `Yaml`
/// (`BadValue` for a missing key or a non-mapping document) and
/// `Yaml::as_i64` (`Some` exactly for an integer node): one library
/// variant per outcome, fields moved, named by [`parents_outcome_of`].
#[verifier::external_body]
fn read_parents_shape(s: &str) -> (r: ParentsShape)
    ensures
        r@ == parents_outcome_of(s@),
{
    let docs = match YamlLoader::load_from_str(s) { Ok(d) => d, Err(_) => return ParentsShape::Unparseable };
    let doc = match docs.first() { Some(d) => d, None => return ParentsShape::NoDocument };
    match &doc["parents"] {
        Yaml::Array(ns) => ns.iter().map(Yaml::as_i64).collect::<Option<Vec<i64>>>().map_or(ParentsShape::NonIntList, ParentsShape::IntList),
        Yaml::Null => ParentsShape::Null,
        Yaml::Integer(v) => ParentsShape::Integer(*v),
        Yaml::String(t) => ParentsShape::Text(t.clone()),
        Yaml::Real(_) => ParentsShape::Real,
        Yaml::Boolean(_) => ParentsShape::Boolean,
        Yaml::Hash(_) => ParentsShape::Mapping,
        Yaml::Alias(_) => ParentsShape::Alias,
        Yaml::BadValue => ParentsShape::BadValue,
    }
}

// ---------------------------------------------------------------------
// Legacy text normalization
// ---------------------------------------------------------------------
/// `s` with every colon followed by an inserted space, as replacing
/// `":"` by `": "` does.
pub open spec fn colon_spaced(s: Seq<char>) -> Seq<char>
    decreases s.len(),
{
    if s.len() == 0 {
        Seq::empty()
    } else if s[0] == ':' {
        seq![':', ' '] + colon_spaced(s.drop_first())
    } else {
        seq![s[0]] + colon_spaced(s.drop_first())
    }
}

/// `s` with every non-overlapping occurrence of `None` replaced by
/// `null`, left to right.
pub open spec fn none_to_null(s: Seq<char>) -> Seq<char>
    decreases s.len(),
{
    if s.len() < 4 {
        s
    } else if s.subrange(0, 4) == "None"@ {
        "null"@ + none_to_null(s.skip(4))
    } else {
        seq![s[0]] + none_to_null(s.drop_first())
    }
}

/// The legacy text brought into parseable YAML: colons spaced, then the
/// bare `None` token written as `null`.
pub open spec fn legacy_normalized(s: Seq<char>) -> Seq<char> {
    none_to_null(colon_spaced(s))
}

/// Insert a space after every colon.
fn replace_colons(s: &str) -> (r: String)
    ensures
        r@ == colon_spaced(s@),
{
    let n = s.unicode_len();
    let mut out = String::new();
    let mut i: usize = 0;
    proof {
        assert(s@.skip(0) =~= s@);
        assert(out@ + colon_spaced(s@) =~= colon_spaced(s@));
    }
    while i < n
        invariant
            i <= n,
            n == s@.len(),
            colon_spaced(s@) == out@ + colon_spaced(s@.skip(i as int)),
        decreases n - i,
    {
        let ghost tail = s@.skip(i as int);
        proof {
            assert(tail[0] == s@[i as int]);
            assert(tail.drop_first() =~= s@.skip(i as int + 1));
        }
        if s.get_char(i) == ':' {
            out.append(": ");
            proof {
                assert(": "@ =~= seq![':', ' ']) by {
                    reveal_strlit(": ");
                }
                assert(out@ + colon_spaced(s@.skip(i as int + 1)) =~= colon_spaced(s@));
            }
        } else {
            out.append(s.substring_char(i, i + 1));
            proof {
                assert(s@.subrange(i as int, i as int + 1) =~= seq![s@[i as int]]);
                assert(out@ + colon_spaced(s@.skip(i as int + 1)) =~= colon_spaced(s@));
            }
        }
        i = i + 1;
    }
    proof {
        assert(s@.skip(n as int) =~= Seq::<char>::empty());
        assert(out@ =~= out@ + colon_spaced(s@.skip(n as int)));
    }
    out
}

/// Replace each `None` token occurrence by `null`.
fn replace_none_with_null(s: &str) -> (r: String)
    ensures
        r@ == none_to_null(s@),
{
    let n = s.unicode_len();
    let mut out = String::new();
    let mut i: usize = 0;
    proof {
        assert(s@.skip(0) =~= s@);
        assert(out@ + none_to_null(s@) =~= none_to_null(s@));
    }
    while i < n
        invariant
            i <= n,
            n == s@.len(),
            none_to_null(s@) == out@ + none_to_null(s@.skip(i as int)),
        decreases n - i,
    {
        let ghost tail = s@.skip(i as int);
        proof {
            assert(tail[0] == s@[i as int]);
            assert(tail.drop_first() =~= s@.skip(i as int + 1));
        }
        if n - i >= 4 && str_eq(s.substring_char(i, i + 4), "None") {
            proof {
                assert(tail.subrange(0, 4) =~= s@.subrange(i as int, i as int + 4));
            }
            out.append("null");
            proof {
                assert(tail.skip(4) =~= s@.skip(i as int + 4));
                assert(out@ + none_to_null(s@.skip(i as int + 4)) =~= none_to_null(s@));
            }
            i = i + 4;
        } else {
            proof {
                if tail.len() >= 4 {
                    assert(tail.subrange(0, 4) =~= s@.subrange(i as int, i as int + 4));
                }
                assert(!(tail.len() >= 4 && tail.subrange(0, 4) == "None"@));
            }
            out.append(s.substring_char(i, i + 1));
            proof {
                assert(s@.subrange(i as int, i as int + 1) =~= seq![s@[i as int]]);
                assert(out@ + none_to_null(s@.skip(i as int + 1)) =~= none_to_null(s@));
            }
            i = i + 1;
        }
    }
    proof {
        assert(s@.skip(n as int) =~= Seq::<char>::empty());
        assert(out@ =~= out@ + none_to_null(s@.skip(n as int)));
    }
    out
}

/// Normalize the raw text of a legacy serialized file: space the colons
/// and write the bare `None` token as `null`.
pub fn normalize_legacy_yaml(content: &str) -> (r: String)
    ensures
        r@ == legacy_normalized(content@),
{
    let spaced = replace_colons(content);
    replace_none_with_null(spaced.as_str())
}

// ---------------------------------------------------------------------
// The parents dispatch
// ---------------------------------------------------------------------
/// The unsigned id a 64-bit signed value denotes, two's-complement.
pub open spec fn wrap_to_u64(i: i64) -> u64 {
    if i >= 0 {
        i as u64
    } else {
        (i + 0x1_0000_0000_0000_0000) as u64
    }
}

/// Is every comma-separated field of `s` a valid unsigned id?
pub open spec fn comma_ids_ok(s: Seq<char>) -> bool {
    forall|k: int|
        0 <= k < split_char(s, ',').len() ==> valid_u64_text(#[trigger] split_char(s, ',')[k])
}

/// The ids a comma-separated string denotes, in order.
pub open spec fn comma_ids_of(s: Seq<char>) -> Seq<u64> {
    split_char(s, ',').map_values(|p: Seq<char>| u64_text_val(p) as u64)
}

/// The ids an integer list denotes, in order.
pub open spec fn wrapped_ids_of(vs: Seq<i64>) -> Seq<u64> {
    vs.map_values(|i: i64| wrap_to_u64(i))
}

/// The fixed type-dispatch table for the `parents` field: null is no
/// parents; an integer is one parent; a list of integers is that list,
/// order preserved; a comma-separated string is parsed in order; every
/// other shape is a fatal parse error, never a silent coercion.
pub open spec fn parents_dispatch(p: ParsedParents) -> Result<Seq<u64>, ErrorKind> {
    match p {
        ParsedParents::Unparseable => Err(ErrorKind::Value),
        ParsedParents::NoDocument => Err(ErrorKind::Structure),
        ParsedParents::Null => Ok(Seq::empty()),
        ParsedParents::Integer(i) => Ok(seq![wrap_to_u64(i)]),
        ParsedParents::IntList(vs) => Ok(wrapped_ids_of(vs)),
        ParsedParents::NonIntList => Err(ErrorKind::Value),
        ParsedParents::Text(s) => if comma_ids_ok(s) {
            Ok(comma_ids_of(s))
        } else {
            Err(ErrorKind::Value)
        },
        ParsedParents::Real => Err(ErrorKind::Structure),
        ParsedParents::Boolean => Err(ErrorKind::Structure),
        ParsedParents::Mapping => Err(ErrorKind::Structure),
        ParsedParents::Alias => Err(ErrorKind::Structure),
        ParsedParents::BadValue => Err(ErrorKind::Structure),
    }
}

/// Normalize the `parents` shape to an ordered parent list: exactly
/// [`parents_dispatch`] of the shape.
pub fn normalize_parents(shape: ParentsShape) -> (r: Result<Vec<u64>, Error>)
    ensures
        match parents_dispatch(shape@) {
            Ok(ps) => r matches Ok(v) && v@ == ps,
            Err(k) => r matches Err(e) && e.kind == k,
        },
{
    match shape {
        ParentsShape::Unparseable => Err(
            Error::with_kind(
                ErrorKind::Value,
                String::from_str("error loading yaml from string"),
            ),
        ),
        ParentsShape::NoDocument => Err(
            Error::with_kind(
                ErrorKind::Structure,
                String::from_str("phylogeny yaml holds no document"),
            ),
        ),
        ParentsShape::Null => Ok(Vec::new()),
        ParentsShape::Integer(i) => {
            let id: u64 = if i >= 0 {
                i as u64
            } else {
                u64::MAX - ((-(i + 1)) as u64)
            };
            proof {
                assert(id == wrap_to_u64(i));
            }
            let mut v: Vec<u64> = Vec::new();
            v.push(id);
            proof {
                assert(v@ =~= seq![wrap_to_u64(i)]);
            }
            Ok(v)
        },
        ParentsShape::IntList(list) => {
            let mut v: Vec<u64> = Vec::new();
            let mut k: usize = 0;
            while k < list.len()
                invariant
                    shape == ParentsShape::IntList(list),
                    k <= list@.len(),
                    v@.len() == k,
                    forall|t: int| 0 <= t < k ==> #[trigger] v@[t] == wrap_to_u64(list@[t]),
                decreases list@.len() - k,
            {
                let i = list[k];
                let id: u64 = if i >= 0 {
                    i as u64
                } else {
                    u64::MAX - ((-(i + 1)) as u64)
                };
                proof {
                    assert(id == wrap_to_u64(i));
                }
                v.push(id);
                k = k + 1;
            }
            proof {
                assert(list.deep_view().len() == list@.len());
                assert(forall|t: int|
                    0 <= t < list@.len() ==> #[trigger] list.deep_view()[t] == list@[t]);
                assert(v@ =~= wrapped_ids_of(list.deep_view()));
            }
            Ok(v)
        },
        ParentsShape::NonIntList => Err(
            Error::with_kind(
                ErrorKind::Value,
                String::from_str("phylogeny parents list holds a non-integer"),
            ),
        ),
        ParentsShape::Text(s) => {
            let parts = split_str(s.as_str(), ',');
            let mut v: Vec<u64> = Vec::new();
            let mut k: usize = 0;
            while k < parts.len()
                invariant
                    shape == ParentsShape::Text(s),
                    k <= parts@.len(),
                    parts@.len() == split_char(s@, ',').len(),
                    forall|t: int| 0 <= t < parts@.len() ==> #[trigger] parts@[t]@ == split_char(
                        s@,
                        ',',
                    )[t],
                    v@.len() == k,
                    forall|t: int| 0 <= t < k ==> valid_u64_text(#[trigger] split_char(s@, ',')[t]),
                    forall|t: int| 0 <= t < k ==> #[trigger] v@[t] == u64_text_val(
                        split_char(s@, ',')[t],
                    ) as u64,
                decreases parts@.len() - k,
            {
                match parse_u64(parts[k].as_str()) {
                    Some(id) => {
                        v.push(id);
                    },
                    None => {
                        proof {
                            assert(!valid_u64_text(split_char(s@, ',')[k as int]));
                            assert(!comma_ids_ok(s@));
                        }
                        return Err(
                            Error::with_kind(
                                ErrorKind::Value,
                                String::from_str("phylogeny parents string field does not parse"),
                            ),
                        );
                    },
                }
                k = k + 1;
            }
            proof {
                assert(comma_ids_ok(s@));
                assert(v@ =~= comma_ids_of(s@));
            }
            Ok(v)
        },
        ParentsShape::Real => Err(
            Error::with_kind(
                ErrorKind::Structure,
                String::from_str("phylogeny parents yaml parse error: Real"),
            ),
        ),
        ParentsShape::Boolean => Err(
            Error::with_kind(
                ErrorKind::Structure,
                String::from_str("phylogeny parents yaml parse error: Boolean"),
            ),
        ),
        ParentsShape::Mapping => Err(
            Error::with_kind(
                ErrorKind::Structure,
                String::from_str("phylogeny parents yaml parse error: Hash"),
            ),
        ),
        ParentsShape::Alias => Err(
            Error::with_kind(
                ErrorKind::Structure,
                String::from_str("phylogeny parents yaml parse error: Alias"),
            ),
        ),
        ParentsShape::BadValue => Err(
            Error::with_kind(
                ErrorKind::Structure,
                String::from_str("phylogeny parents yaml parse error: BadValue"),
            ),
        ),
    }
}

// ---------------------------------------------------------------------
// The per-individual files
// ---------------------------------------------------------------------
/// One directory entry of the phylogeny folder: its file name and the
/// file's text, `None` when the file could not be read.
#[derive(Debug)]
pub struct PhylogenyFile {
    pub name: String,
    pub content: Option<String>,
}

/// The spec-level image of a [`PhylogenyFile`].
pub ghost struct PhylogenyFileView {
    pub name: Seq<char>,
    pub content: Option<Seq<char>>,
}

impl View for PhylogenyFile {
    type V = PhylogenyFileView;

    open spec fn view(&self) -> PhylogenyFileView {
        PhylogenyFileView { name: self.name@, content: self.content.deep_view() }
    }
}

/// One individual's lineage: its id and its ordered parent list.
#[derive(Debug)]
pub struct PhylogenyRecord {
    pub id: u64,
    pub parents: Vec<u64>,
}

/// The spec-level image of a [`PhylogenyRecord`].
pub ghost struct PhylogenyRecordView {
    pub id: u64,
    pub parents: Seq<u64>,
}

impl View for PhylogenyRecord {
    type V = PhylogenyRecordView;

    open spec fn view(&self) -> PhylogenyRecordView {
        PhylogenyRecordView { id: self.id, parents: self.parents.deep_view() }
    }
}

/// The views of a record list.
pub open spec fn phylogeny_views(ps: Seq<PhylogenyRecord>) -> Seq<PhylogenyRecordView> {
    ps.map_values(|p: PhylogenyRecord| p@)
}

/// Does `name` match `parents_<digits><sep>yaml`, where `<sep>` is any
/// single character?
pub open spec fn is_parents_filename(name: Seq<char>) -> bool {
    &&& name.len() >= 14
    &&& name.subrange(0, 8) == "parents_"@
    &&& all_dec_digits(name.subrange(8, name.len() - 5))
    &&& name.subrange(name.len() - 4, name.len() as int) == "yaml"@
}

/// The id embedded in a matching file name, unbounded.
pub open spec fn parents_file_id(name: Seq<char>) -> nat {
    dec_val(name.subrange(8, name.len() - 5))
}

/// The text handed to the YAML parse for one file's content: the
/// normalized form with a final newline appended.
pub open spec fn parents_text_of(content: Seq<char>) -> Seq<char> {
    legacy_normalized(content) + "\n"@
}

/// The parent list one file's content denotes: the exact bare-null form
/// short-circuits to no parents without a parse; everything else goes
/// through the named YAML parse outcome and the fixed dispatch.
pub open spec fn file_parents_of(content: Seq<char>) -> Result<Seq<u64>, ErrorKind> {
    if parents_text_of(content) == "parents: null\n"@ {
        Ok(Seq::empty())
    } else {
        parents_dispatch(parents_outcome_of(parents_text_of(content)))
    }
}

/// What loading the folder yields: one record per matching file name,
/// in directory order, or the first failure. A matching name whose
/// embedded id does not fit an unsigned 64-bit value is skipped, as a
/// failed capture parse is; a matching file whose content could not be
/// read fails with an I/O error.
pub open spec fn phylogeny_outcome(files: Seq<PhylogenyFileView>) -> Result<
    Seq<PhylogenyRecordView>,
    ErrorKind,
>
    decreases files.len(),
{
    if files.len() == 0 {
        Ok(Seq::empty())
    } else {
        match phylogeny_outcome(files.drop_last()) {
            Err(k) => Err(k),
            Ok(acc) => {
                let f = files.last();
                if !(is_parents_filename(f.name) && parents_file_id(f.name) <= u64::MAX) {
                    Ok(acc)
                } else {
                    match f.content {
                        None => Err(ErrorKind::Io),
                        Some(c) => match file_parents_of(c) {
                            Err(k) => Err(k),
                            Ok(ps) => Ok(
                                acc + seq![
                                    PhylogenyRecordView {
                                        id: (parents_file_id(f.name) as u64),
                                        parents: ps,
                                    },
                                ],
                            ),
                        },
                    }
                }
            },
        }
    }
}

/// The views of a file list.
pub open spec fn phylogeny_file_views(fs: Seq<PhylogenyFile>) -> Seq<PhylogenyFileView> {
    fs.map_values(|f: PhylogenyFile| f@)
}

/// A failing file prefix decides the load.
proof fn lemma_phylogeny_err_extends(files: Seq<PhylogenyFileView>, m: int)
    requires
        0 <= m <= files.len(),
        phylogeny_outcome(files.subrange(0, m)) is Err,
    ensures
        phylogeny_outcome(files) == phylogeny_outcome(files.subrange(0, m)),
    decreases files.len(),
{
    if m == files.len() {
        assert(files.subrange(0, m) =~= files);
    } else {
        let shorter = files.drop_last();
        assert(shorter.subrange(0, m) =~= files.subrange(0, m));
        lemma_phylogeny_err_extends(shorter, m);
    }
}

/// Load the phylogeny from the files of the phylogeny folder, in the
/// order given. Exactly [`phylogeny_outcome`] of the file views: the
/// load succeeds precisely when every matching file is readable and its
/// content is the bare-null form or yields an accepted `parents` shape,
/// and each record then carries the dispatch of its file's parse
/// outcome.
pub fn load_phylogeny(files: &Vec<PhylogenyFile>) -> (r: Result<Vec<PhylogenyRecord>, Error>)
    ensures
        ({
            let sr = phylogeny_outcome(phylogeny_file_views(files@));
            match r {
                Ok(recs) => sr == Ok::<_, ErrorKind>(phylogeny_views(recs@)),
                Err(e) => sr == Err::<Seq<PhylogenyRecordView>, ErrorKind>(e.kind),
            }
        }),
{
    let ghost fv = phylogeny_file_views(files@);
    let mut recs: Vec<PhylogenyRecord> = Vec::new();
    let mut i: usize = 0;
    proof {
        assert(fv.subrange(0, 0) =~= Seq::<PhylogenyFileView>::empty());
        assert(phylogeny_views(recs@) =~= Seq::<PhylogenyRecordView>::empty());
    }
    while i < files.len()
        invariant
            i <= files@.len(),
            fv == phylogeny_file_views(files@),
            fv.len() == files@.len(),
            phylogeny_outcome(fv.subrange(0, i as int)) == Ok::<_, ErrorKind>(
                phylogeny_views(recs@),
            ),
        decreases files@.len() - i,
    {
        proof {
            assert(fv[i as int] == files@[i as int]@);
            assert(fv.subrange(0, i as int + 1).drop_last() =~= fv.subrange(0, i as int));
            assert(fv.subrange(0, i as int + 1).last() == fv[i as int]);
        }
        let f = &files[i];
        let nm = f.name.as_str();
        let n = nm.unicode_len();
        proof {
            reveal_strlit("parents_");
            reveal_strlit("yaml");
        }
        let name_ok = n >= 14 && has_prefix(nm, "parents_") && has_suffix(nm, "yaml")
            && all_digits_in(nm, 8, n - 5);
        proof {
            assert(name_ok == is_parents_filename(fv[i as int].name));
        }
        if !name_ok {
            proof {
                assert(phylogeny_outcome(fv.subrange(0, i as int + 1)) == Ok::<_, ErrorKind>(
                    phylogeny_views(recs@),
                ));
            }
            i = i + 1;
        } else {
            let idtext = nm.substring_char(8, n - 5);
            proof {
                assert(idtext@ =~= nm@.subrange(8, nm@.len() - 5));
                assert(crate::text::unsigned_digits(idtext@) == idtext@);
            }
            match parse_u64(idtext) {
                None => {
                    proof {
                        assert(parents_file_id(fv[i as int].name) > u64::MAX);
                        assert(phylogeny_outcome(fv.subrange(0, i as int + 1)) == Ok::<
                            _,
                            ErrorKind,
                        >(phylogeny_views(recs@)));
                    }
                    i = i + 1;
                },
                Some(id) => {
                    proof {
                        assert(id == parents_file_id(fv[i as int].name));
                    }
                    let content = match &f.content {
                        Some(c) => c,
                        None => {
                            proof {
                                assert(fv[i as int].content is None);
                                assert(phylogeny_outcome(fv.subrange(0, i as int + 1)) == Err::<
                                    Seq<PhylogenyRecordView>,
                                    ErrorKind,
                                >(ErrorKind::Io));
                                lemma_phylogeny_err_extends(fv, i as int + 1);
                            }
                            return Err(
                                ErrorKind::Io.into_error(
                                    String::from_str(
                                        "could not read phylogeny file for individual",
                                    ),
                                ),
                            );
                        },
                    };
                    proof {
                        assert(fv[i as int].content == Some(content@));
                    }
                    let mut norm = normalize_legacy_yaml(content.as_str());
                    norm.append("\n");
                    proof {
                        assert(norm@ == parents_text_of(content@));
                    }
                    let parents: Vec<u64>;
                    if str_eq(norm.as_str(), "parents: null\n") {
                        parents = Vec::new();
                        proof {
                            assert(file_parents_of(content@) == Ok::<Seq<u64>, ErrorKind>(
                                Seq::empty(),
                            ));
                            assert(parents@ =~= Seq::<u64>::empty());
                        }
                    } else {
                        let shape = read_parents_shape(norm.as_str());
                        parents = match normalize_parents(shape) {
                            Ok(v) => {
                                proof {
                                    assert(file_parents_of(content@) == Ok::<Seq<u64>, ErrorKind>(
                                        v@,
                                    ));
                                }
                                v
                            },
                            Err(e) => {
                                proof {
                                    assert(file_parents_of(content@) == Err::<Seq<u64>, ErrorKind>(
                                        e.kind,
                                    ));
                                    assert(phylogeny_outcome(fv.subrange(0, i as int + 1))
                                        == Err::<Seq<PhylogenyRecordView>, ErrorKind>(e.kind));
                                    lemma_phylogeny_err_extends(fv, i as int + 1);
                                }
                                return Err(e);
                            },
                        };
                    }
                    let rec = PhylogenyRecord { id, parents };
                    let ghost prev = recs@;
                    proof {
                        assert(rec@.parents =~= rec.parents@);
                        assert(file_parents_of(content@) == Ok::<Seq<u64>, ErrorKind>(
                            rec@.parents,
                        ));
                    }
                    recs.push(rec);
                    proof {
                        assert(recs@ == prev.push(rec));
                        assert(phylogeny_views(recs@) =~= phylogeny_views(prev) + seq![rec@]);
                        assert(phylogeny_outcome(fv.subrange(0, i as int + 1)) == Ok::<
                            _,
                            ErrorKind,
                        >(phylogeny_views(recs@)));
                    }
                    i = i + 1;
                },
            }
        }
    }
    proof {
        assert(fv.subrange(0, files@.len() as int) =~= fv);
    }
    Ok(recs)
}

} // verus!
