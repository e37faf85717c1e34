//! Reading one per-individual descriptor category file: `measure value`
//! lines, looked up against a fixed ordered measure-name list.
//!
//! A missing file yields "all measures absent". A present file is held
//! to a strict shape: every line must have exactly two fields, and every
//! expected measure name must occur. The behavioral category also
//! recognizes a degenerate file whose first line is the bare token
//! `None`, which short-circuits to "all absent".

use vstd::prelude::*;

use crate::error::{Error, ErrorKind};
use crate::number::{parse_real_token, real_render_of};
use crate::text::{lines_of, split_char, split_str, str_eq, text_lines, trim, trim_spec};

verus! {

/// The fields of one descriptor line: the trimmed line split on single
/// spaces.
pub open spec fn descriptor_fields(line: Seq<char>) -> Seq<Seq<char>> {
    split_char(trim_spec(line), ' ')
}

/// Does every line of `text` hold exactly two space-separated fields?
pub open spec fn descriptor_lines_ok(text: Seq<char>) -> bool {
    forall|i: int|
        0 <= i < text_lines(text).len() ==> descriptor_fields(
            #[trigger] text_lines(text)[i],
        ).len() == 2
}

/// The value recorded for `name` among `lines`: of the lines naming it,
/// the last one wins, as collecting the lines into a keyed map makes it.
/// `None` when no line names it; the inner option is the parsed value,
/// absent when the value field is not a number.
pub open spec fn measure_lookup(lines: Seq<Seq<char>>, name: Seq<char>) -> Option<
    Option<Seq<char>>,
>
    decreases lines.len(),
{
    if lines.len() == 0 {
        None
    } else if descriptor_fields(lines.last())[0] == name {
        Some(real_render_of(descriptor_fields(lines.last())[1]))
    } else {
        measure_lookup(lines.drop_last(), name)
    }
}

/// What reading one descriptor category yields, for the given file
/// content (`None` when the file is absent), measure-name list, and
/// whether the degenerate one-line `None` file is recognized.
pub open spec fn measures_result(
    content: Option<Seq<char>>,
    names: Seq<Seq<char>>,
    none_token: bool,
) -> Result<Seq<Option<Seq<char>>>, ErrorKind> {
    match content {
        Option::None => Ok(Seq::new(names.len(), |j: int| Option::<Seq<char>>::None)),
        Option::Some(text) => {
            let lines = text_lines(text);
            if none_token && lines.len() == 0 {
                Err(ErrorKind::Structure)
            } else if none_token && lines[0] == "None"@ {
                Ok(Seq::new(names.len(), |j: int| Option::<Seq<char>>::None))
            } else if !descriptor_lines_ok(text) {
                Err(ErrorKind::Structure)
            } else if exists|j: int|
                0 <= j < names.len() && measure_lookup(lines, #[trigger] names[j]) is None {
                Err(ErrorKind::MissingKey)
            } else {
                Ok(Seq::new(names.len(), |j: int| measure_lookup(lines, names[j]).unwrap()))
            }
        },
    }
}

/// The last line naming `name` decides the lookup.
proof fn lemma_measure_lookup_hit(lines: Seq<Seq<char>>, name: Seq<char>, k: int)
    requires
        0 <= k < lines.len(),
        descriptor_fields(lines[k])[0] == name,
        forall|t: int| k < t < lines.len() ==> descriptor_fields(#[trigger] lines[t])[0] != name,
    ensures
        measure_lookup(lines, name) == Some(real_render_of(descriptor_fields(lines[k])[1])),
    decreases lines.len(),
{
    if k == lines.len() - 1 {
    } else {
        let shorter = lines.drop_last();
        assert(forall|t: int| 0 <= t < shorter.len() ==> shorter[t] == #[trigger] lines[t]);
        lemma_measure_lookup_hit(shorter, name, k);
    }
}

/// With no line naming `name`, the lookup is empty.
proof fn lemma_measure_lookup_miss(lines: Seq<Seq<char>>, name: Seq<char>)
    requires
        forall|t: int| 0 <= t < lines.len() ==> descriptor_fields(#[trigger] lines[t])[0] != name,
    ensures
        measure_lookup(lines, name) is None,
    decreases lines.len(),
{
    if lines.len() > 0 {
        let shorter = lines.drop_last();
        assert(forall|t: int| 0 <= t < shorter.len() ==> shorter[t] == #[trigger] lines[t]);
        lemma_measure_lookup_miss(shorter, name);
    }
}

/// A copy of an optional string with the same characters.
fn clone_opt_string(o: &Option<String>) -> (r: Option<String>)
    ensures
        r.deep_view() == o.deep_view(),
{
    match o {
        Some(s) => Some(s.clone()),
        None => None,
    }
}

/// A vector of `len` absent values.
fn all_absent(len: usize) -> (r: Vec<Option<String>>)
    ensures
        r@.len() == len,
        forall|j: int| 0 <= j < len ==> r@[j] is None,
{
    let mut v: Vec<Option<String>> = Vec::new();
    let mut j: usize = 0;
    while j < len
        invariant
            j <= len,
            v@.len() == j,
            forall|t: int| 0 <= t < j ==> v@[t] is None,
        decreases len - j,
    {
        v.push(None);
        j = j + 1;
    }
    v
}

/// Read one descriptor category: the value of each name in `names`, in
/// order, from the given file content (`None` when the file is absent).
/// Exactly [`measures_result`] of the inputs.
pub fn read_measures(content: Option<&String>, names: &Vec<String>, none_token: bool) -> (r: Result<
    Vec<Option<String>>,
    Error,
>)
    ensures
        ({
            let sr = measures_result(
                match content {
                    Option::Some(s) => Option::Some(s@),
                    Option::None => Option::<Seq<char>>::None,
                },
                names.deep_view(),
                none_token,
            );
            match r {
                Ok(v) => sr matches Ok(sv) && v.deep_view() == sv,
                Err(e) => sr matches Err(k) && e.kind == k,
            }
        }),
{
    let ghost nv = names.deep_view();
    let text: &String = match content {
        Some(s) => s,
        None => {
            let out = all_absent(names.len());
            proof {
                assert(out.deep_view() =~= Seq::new(nv.len(), |j: int| Option::<Seq<char>>::None));
            }
            return Ok(out);
        },
    };
    let lines = lines_of(text.as_str());
    let ghost tl = text_lines(text@);
    if none_token {
        if lines.len() == 0 {
            return Err(
                Error::with_kind(ErrorKind::Structure, String::from_str("empty descriptor file")),
            );
        }
        if str_eq(lines[0].as_str(), "None") {
            let out = all_absent(names.len());
            proof {
                assert(out.deep_view() =~= Seq::new(nv.len(), |j: int| Option::<Seq<char>>::None));
            }
            return Ok(out);
        }
    }
    let ghost guard = !none_token || (tl.len() > 0 && tl[0] != "None"@);
    proof {
        assert(guard);
    }
    let mut entries: Vec<(String, Option<String>)> = Vec::new();
    let mut i: usize = 0;
    while i < lines.len()
        invariant
            i <= lines@.len(),
            content matches Option::Some(cs) && cs@ == text@,
            tl == text_lines(text@),
            guard == (!none_token || (tl.len() > 0 && tl[0] != "None"@)),
            guard,
            lines@.len() == tl.len(),
            forall|k: int| 0 <= k < tl.len() ==> #[trigger] lines@[k]@ == tl[k],
            entries@.len() == i,
            forall|k: int|
                0 <= k < i ==> #[trigger] descriptor_fields(tl[k]).len() == 2 && entries@[k].0@
                    == descriptor_fields(tl[k])[0] && entries@[k].1.deep_view() == real_render_of(
                    descriptor_fields(tl[k])[1],
                ),
        decreases lines@.len() - i,
    {
        let t = trim(lines[i].as_str());
        let fields = split_str(t.as_str(), ' ');
        proof {
            assert(t@ == trim_spec(tl[i as int]));
        }
        if fields.len() != 2 {
            proof {
                assert(descriptor_fields(tl[i as int]).len() != 2);
                assert(!descriptor_lines_ok(text@));
            }
            return Err(
                Error::with_kind(
                    ErrorKind::Structure,
                    String::from_str("descriptor line does not hold exactly two fields"),
                ),
            );
        }
        let value = parse_real_token(fields[1].as_str());
        let name = fields[0].clone();
        proof {
            assert(descriptor_fields(tl[i as int]).len() == 2);
            assert(name@ == descriptor_fields(tl[i as int])[0]);
            assert(value.deep_view() == real_render_of(descriptor_fields(tl[i as int])[1]));
        }
        entries.push((name, value));
        i = i + 1;
    }
    proof {
        assert(descriptor_lines_ok(text@));
    }
    let mut out: Vec<Option<String>> = Vec::new();
    let mut j: usize = 0;
    while j < names.len()
        invariant
            j <= names@.len(),
            nv == names.deep_view(),
            nv.len() == names@.len(),
            content matches Option::Some(cs) && cs@ == text@,
            tl == text_lines(text@),
            guard == (!none_token || (tl.len() > 0 && tl[0] != "None"@)),
            guard,
            descriptor_lines_ok(text@),
            entries@.len() == tl.len(),
            forall|k: int|
                0 <= k < tl.len() ==> #[trigger] descriptor_fields(tl[k]).len() == 2
                    && entries@[k].0@ == descriptor_fields(tl[k])[0] && entries@[k].1.deep_view()
                    == real_render_of(descriptor_fields(tl[k])[1]),
            out@.len() == j,
            forall|t: int|
                0 <= t < j ==> measure_lookup(tl, nv[t]) == Some(#[trigger] out@[t].deep_view()),
        decreases names@.len() - j,
    {
        let name = &names[j];
        proof {
            assert(nv[j as int] == names@[j as int]@);
        }
        let mut hit: usize = entries.len();
        let mut k: usize = 0;
        while k < entries.len()
            invariant
                k <= entries@.len(),
                hit == entries@.len() || hit < k,
                0 <= j < nv.len(),
                name@ == nv[j as int],
                nv == names.deep_view(),
                hit == entries@.len() ==> forall|t: int| 0 <= t < k ==> #[trigger] entries@[t].0@
                    != name@,
                hit < entries@.len() ==> entries@[hit as int].0@ == name@ && forall|t: int|
                    hit < t < k ==> #[trigger] entries@[t].0@ != name@,
            decreases entries@.len() - k,
        {
            if entries[k].0 == *name {
                hit = k;
            }
            k = k + 1;
        }
        if hit == entries.len() {
            proof {
                assert forall|t: int|
                    0 <= t < tl.len() implies descriptor_fields(#[trigger] tl[t])[0]
                    != nv[j as int] by {
                    assert(descriptor_fields(tl[t]).len() == 2);
                    assert(entries@[t].0@ != name@);
                }
                lemma_measure_lookup_miss(tl, nv[j as int]);
                assert(0 <= j < nv.len() && measure_lookup(tl, nv[j as int]) is None);
            }
            return Err(
                Error::with_kind(
                    ErrorKind::MissingKey,
                    String::from_str("descriptor file lacks an expected measure"),
                ),
            );
        }
        let value = clone_opt_string(&entries[hit].1);
        proof {
            assert forall|t: int|
                hit < t < tl.len() implies descriptor_fields(#[trigger] tl[t])[0]
                != nv[j as int] by {
                assert(descriptor_fields(tl[t]).len() == 2);
                assert(entries@[t].0@ != name@);
            }
            assert(descriptor_fields(tl[hit as int])[0] == entries@[hit as int].0@);
            lemma_measure_lookup_hit(tl, nv[j as int], hit as int);
        }
        out.push(value);
        j = j + 1;
    }
    proof {
        assert forall|t: int| 0 <= t < nv.len() implies measure_lookup(
            tl,
            #[trigger] nv[t],
        ) is Some by {
            assert(measure_lookup(tl, nv[t]) == Some(out@[t].deep_view()));
        }
        assert forall|t: int| 0 <= t < nv.len() implies out.deep_view()[t] == measure_lookup(
            tl,
            nv[t],
        ).unwrap() by {
            assert(measure_lookup(tl, nv[t]) == Some(out@[t].deep_view()));
        }
        assert(out.deep_view() =~= Seq::new(nv.len(), |t: int| measure_lookup(tl, nv[t]).unwrap()));
    }
    Ok(out)
}

} // verus!
