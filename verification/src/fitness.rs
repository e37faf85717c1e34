//! The fitness table: a two-column delimited file, no header, one
//! `id,fitness` row per individual. The id must parse; an unparsable
//! fitness value degrades to "absent"; any extra or missing field is a
//! structural failure of the whole run.

use vstd::prelude::*;

use crate::error::{Error, ErrorKind};
use crate::number::{parse_real_token, real_render_of};
use crate::text::{
    lines_of, parse_u64, split_char, split_str, text_lines, u64_text_val, valid_u64_text,
};

verus! {

/// One row of the fitness table: the individual and, when its second
/// field parsed as a number, that value's canonical rendering.
#[derive(Debug)]
pub struct FitnessRecord {
    pub id: u64,
    pub fitness: Option<String>,
}

/// The spec-level image of a [`FitnessRecord`].
pub ghost struct FitnessRecordView {
    pub id: u64,
    pub fitness: Option<Seq<char>>,
}

impl View for FitnessRecord {
    type V = FitnessRecordView;

    open spec fn view(&self) -> FitnessRecordView {
        FitnessRecordView { id: self.id, fitness: self.fitness.deep_view() }
    }
}

/// Does `line` hold exactly two comma-separated fields with a valid id?
pub open spec fn fitness_line_ok(line: Seq<char>) -> bool {
    let parts = split_char(line, ',');
    parts.len() == 2 && valid_u64_text(parts[0])
}

/// The record a well-formed fitness line denotes.
pub open spec fn fitness_line_record(line: Seq<char>) -> FitnessRecordView {
    let parts = split_char(line, ',');
    FitnessRecordView {
        id: u64_text_val(parts[0]) as u64,
        fitness: real_render_of(parts[1]),
    }
}

/// Is every line of the fitness file well-formed?
pub open spec fn fitness_text_ok(text: Seq<char>) -> bool {
    forall|i: int|
        0 <= i < text_lines(text).len() ==> fitness_line_ok(#[trigger] text_lines(text)[i])
}

/// The records of the fitness file, in file order.
pub open spec fn fitness_records_of(text: Seq<char>) -> Seq<FitnessRecordView> {
    text_lines(text).map_values(|l: Seq<char>| fitness_line_record(l))
}

/// Parse the fitness file. Succeeds exactly when every line holds two
/// comma-separated fields and a valid id; the records come back in file
/// order, each holding the rendering of its fitness value when the
/// second field is a number.
pub fn parse_fitness(content: &str) -> (r: Result<Vec<FitnessRecord>, Error>)
    ensures
        r is Ok <==> fitness_text_ok(content@),
        r matches Ok(v) ==> v@.len() == fitness_records_of(content@).len() && forall|i: int|
            0 <= i < v@.len() ==> #[trigger] v@[i]@ == fitness_records_of(content@)[i],
        r matches Err(e) ==> e.kind == ErrorKind::Structure || e.kind == ErrorKind::Value,
{
    let lines = lines_of(content);
    let ghost tl = text_lines(content@);
    let mut out: Vec<FitnessRecord> = Vec::new();
    let mut i: usize = 0;
    while i < lines.len()
        invariant
            i <= lines@.len(),
            tl == text_lines(content@),
            lines@.len() == tl.len(),
            forall|k: int| 0 <= k < tl.len() ==> #[trigger] lines@[k]@ == tl[k],
            out@.len() == i,
            forall|k: int| 0 <= k < i ==> fitness_line_ok(#[trigger] tl[k]),
            forall|k: int| 0 <= k < i ==> #[trigger] out@[k]@ == fitness_line_record(tl[k]),
        decreases lines@.len() - i,
    {
        let parts = split_str(lines[i].as_str(), ',');
        if parts.len() != 2 {
            proof {
                assert(!fitness_line_ok(tl[i as int]));
            }
            return Err(
                Error::with_kind(
                    ErrorKind::Structure,
                    String::from_str("fitness row does not hold exactly two fields"),
                ),
            );
        }
        let id = match parse_u64(parts[0].as_str()) {
            Some(v) => v,
            None => {
                proof {
                    assert(!fitness_line_ok(tl[i as int]));
                }
                return Err(
                    Error::with_kind(
                        ErrorKind::Value,
                        String::from_str("fitness row id is not an unsigned integer"),
                    ),
                );
            },
        };
        let fitness = parse_real_token(parts[1].as_str());
        let rec = FitnessRecord { id, fitness };
        proof {
            assert(rec@ == fitness_line_record(tl[i as int]));
        }
        out.push(rec);
        i = i + 1;
    }
    proof {
        assert(fitness_text_ok(content@));
        assert(fitness_records_of(content@).len() == tl.len());
        assert(forall|k: int|
            0 <= k < tl.len() ==> fitness_records_of(content@)[k] == fitness_line_record(
                #[trigger] tl[k],
            ));
    }
    Ok(out)
}

} // verus!
