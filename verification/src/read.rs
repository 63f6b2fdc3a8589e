//! The record decoder and the document builder: one line becomes a typed
//! record by fixed-offset slicing, and a sequence of lines folds into a
//! `PDB`, the first failure carrying its 1-based line number.

use vstd::prelude::*;

use crate::atom::{atom_new_spec, atom_wf, Atom, AtomModel};
use crate::error::{parse_error_at, PDBError};
use crate::item::{AtomRecord, ParsedItems, RecModel};
use crate::num::{
    decode_failure, is_digit, is_digit_char, digit_val, parse_fixed, parse_fixed_spec,
    parse_uint_spec, parse_usize, uint_in_range,
};
use crate::pdb::{pdb_wf, remark_type_allowed, PDBModel, PDB};
use crate::text::{chars_of, space_char, string_of, subvec, trim_back, trim_end_vec, is_space_char};
use crate::validator::prepare_spec;

verus! {

/// What a header line decodes to: the line must reach 66 characters; the
/// title-like field, the date-like field and the identifier are sliced at
/// fixed offsets.
pub open spec fn decode_header_spec(line: Seq<char>) -> Option<RecModel> {
    if line.len() >= 66 {
        Some(
            RecModel::Header(line.subrange(10, 50), line.subrange(50, 59), line.subrange(62, 66)),
        )
    } else {
        None
    }
}

/// What a remark line decodes to: the line must reach the type field and not
/// exceed 80 characters; the type code occupies columns 7 to 10 and the text
/// runs from column 11 on, right-trimmed.
pub open spec fn decode_remark_spec(line: Seq<char>) -> Option<RecModel> {
    if 10 <= line.len() <= 80 {
        if uint_in_range(line.subrange(7, 10)) {
            let text = if line.len() >= 11 {
                trim_back(line.subrange(11, line.len() as int))
            } else {
                Seq::<char>::empty()
            };
            Some(RecModel::Remark(parse_uint_spec(line.subrange(7, 10)).unwrap(), text))
        } else {
            None
        }
    } else {
        None
    }
}

/// The element field: two characters at column 76 when the line reaches 78,
/// what is there at 77, empty below.
pub open spec fn element_spec(line: Seq<char>) -> Seq<char> {
    if line.len() >= 78 {
        line.subrange(76, 78)
    } else if line.len() == 77 {
        line.subrange(76, 77)
    } else {
        Seq::<char>::empty()
    }
}

/// A charge field is present when the line reaches 80 characters and columns
/// 78 and 79 are not both blank.
pub open spec fn charge_present(line: Seq<char>) -> bool {
    line.len() >= 80 && !(space_char(line[78]) && space_char(line[79]))
}

/// A present charge field must be a digit followed by a sign.
pub open spec fn charge_ok(line: Seq<char>) -> bool {
    charge_present(line) ==> is_digit(line[78]) && (line[79] == '-' || line[79] == '+')
}

/// The decoded charge: the digit's magnitude when a charge field is present,
/// zero otherwise. The sign character is validated but not applied.
pub open spec fn charge_spec(line: Seq<char>) -> int {
    if charge_present(line) {
        digit_val(line[78])
    } else {
        0
    }
}

/// What an atom or hetero-atom line decodes to: the line must reach 54
/// characters; serial number, name, residue name, chain id, residue sequence
/// number and the coordinates are sliced at fixed offsets; occupancy defaults
/// to one and the temperature factor to zero on short lines.
pub open spec fn decode_atom_spec(line: Seq<char>, hetero: bool) -> Option<RecModel> {
    if line.len() >= 54 {
        let occ = if line.len() >= 60 {
            parse_fixed_spec(line.subrange(54, 60), 2)
        } else {
            Some(100int)
        };
        let temp = if line.len() >= 66 {
            parse_fixed_spec(line.subrange(60, 66), 2)
        } else {
            Some(0int)
        };
        if uint_in_range(line.subrange(6, 11)) && uint_in_range(line.subrange(22, 26))
            && parse_fixed_spec(line.subrange(30, 38), 3) is Some && parse_fixed_spec(
            line.subrange(38, 46),
            3,
        ) is Some && parse_fixed_spec(line.subrange(46, 54), 3) is Some && occ is Some
            && temp is Some && charge_ok(line) {
            Some(
                RecModel::Atom(
                    AtomModel {
                        hetero,
                        serial_number: parse_uint_spec(line.subrange(6, 11)).unwrap(),
                        atom_name: line.subrange(12, 16),
                        alt_location: None,
                        res_name: line.subrange(17, 20),
                        chain_id: seq![line[21]],
                        res_seq: parse_uint_spec(line.subrange(22, 26)).unwrap(),
                        i_code: None,
                        x: parse_fixed_spec(line.subrange(30, 38), 3).unwrap(),
                        y: parse_fixed_spec(line.subrange(38, 46), 3).unwrap(),
                        z: parse_fixed_spec(line.subrange(46, 54), 3).unwrap(),
                        occupancy: occ.unwrap(),
                        temp_factor: temp.unwrap(),
                        segment_id: None,
                        element: element_spec(line),
                        charge: charge_spec(line),
                    },
                ),
            )
        } else {
            None
        }
    } else {
        None
    }
}

/// What one line decodes to: lines longer than six characters dispatch on
/// their six-character tag; shorter lines longer than two tolerate bare
/// terminator and end markers; everything else is ignorable.
pub open spec fn decode_spec(line: Seq<char>) -> Option<RecModel> {
    if line.len() > 6 {
        let tag = line.subrange(0, 6);
        if tag == "HEADER"@ {
            decode_header_spec(line)
        } else if tag == "REMARK"@ {
            decode_remark_spec(line)
        } else if tag == "HETATM"@ {
            decode_atom_spec(line, true)
        } else if tag == "ATOM  "@ {
            decode_atom_spec(line, false)
        } else if tag == "TER   "@ {
            Some(RecModel::Ter)
        } else if tag == "END   "@ {
            Some(RecModel::End)
        } else {
            Some(RecModel::Empty)
        }
    } else if line.len() > 2 {
        let tag = line.subrange(0, 3);
        if tag == "TER"@ {
            Some(RecModel::Ter)
        } else if tag == "END"@ {
            Some(RecModel::End)
        } else {
            Some(RecModel::Empty)
        }
    } else {
        Some(RecModel::Empty)
    }
}

/// How one decoded record folds into the model: a header sets the
/// identifier, a remark and an atom are validated and appended, terminator,
/// end and ignorable records change nothing.
pub open spec fn fold_spec(m: PDBModel, rec: RecModel) -> Option<PDBModel> {
    match rec {
        RecModel::Header(_title, _date, id) => match prepare_spec(id) {
            Some(p) => Some(PDBModel { identifier: Some(p), ..m }),
            None => None,
        },
        RecModel::Remark(n, text) => if remark_type_allowed(n) && text.len() <= 70 {
            Some(PDBModel { remarks: m.remarks.push((n, text)), ..m })
        } else {
            None
        },
        RecModel::Atom(a) => match atom_new_spec(
            a.hetero,
            a.serial_number,
            a.atom_name,
            a.res_name,
            a.chain_id,
            a.res_seq,
            a.x,
            a.y,
            a.z,
            a.occupancy,
            a.temp_factor,
            a.element,
            a.charge,
        ) {
            Some(na) => Some(PDBModel { atoms: m.atoms.push(na), ..m }),
            None => None,
        },
        RecModel::Ter => Some(m),
        RecModel::End => Some(m),
        RecModel::Empty => Some(m),
    }
}

/// One read step: what decoding one line and folding it into `m` yields.
pub open spec fn step_spec(m: PDBModel, line: Seq<char>) -> Option<PDBModel> {
    match decode_spec(line) {
        Some(rec) => fold_spec(m, rec),
        None => None,
    }
}

/// The empty model a read starts from.
pub open spec fn empty_model() -> PDBModel {
    PDBModel {
        identifier: None,
        remarks: Seq::<(int, Seq<char>)>::empty(),
        atoms: Seq::<AtomModel>::empty(),
    }
}

/// Folding the lines from position `i` onward into `m`: the finished model,
/// or the 1-based number of the first line that fails.
pub open spec fn read_from_spec(lines: Seq<Seq<char>>, i: int, m: PDBModel) -> Result<
    PDBModel,
    int,
>
    decreases lines.len() - i,
{
    if i < 0 || i >= lines.len() {
        Ok(m)
    } else {
        match step_spec(m, lines[i]) {
            None => Err(i + 1),
            Some(m2) => read_from_spec(lines, i + 1, m2),
        }
    }
}

/// What reading a document yields: the model folded from all lines in order,
/// or the 1-based number of the first failing line.
pub open spec fn read_spec(lines: Seq<Seq<char>>) -> Result<PDBModel, int> {
    read_from_spec(lines, 0, empty_model())
}

/// Decodes a header line.
pub fn parse_header(line: &Vec<char>, line_number: usize) -> (r: Result<ParsedItems, PDBError>)
    requires
        line@.len() > 6,
    ensures
        r is Ok <==> decode_header_spec(line@) is Some,
        r matches Ok(it) ==> decode_header_spec(line@) == Some(it@),
        r matches Err(e) ==> parse_error_at(e, line_number as int),
{
    if line.len() < 66 {
        return Err(decode_failure(line_number, line));
    }
    Ok(
        ParsedItems::Header(
            string_of(&subvec(line, 10, 50)),
            string_of(&subvec(line, 50, 59)),
            string_of(&subvec(line, 62, 66)),
        ),
    )
}

/// Decodes a remark line.
pub fn parse_remarks(line: &Vec<char>, line_number: usize) -> (r: Result<ParsedItems, PDBError>)
    requires
        line@.len() > 6,
    ensures
        r is Ok <==> decode_remark_spec(line@) is Some,
        r matches Ok(it) ==> decode_remark_spec(line@) == Some(it@),
        r matches Err(e) ==> parse_error_at(e, line_number as int),
{
    if line.len() > 80 || line.len() < 10 {
        return Err(decode_failure(line_number, line));
    }
    let type_field = subvec(line, 7, 10);
    let number = match parse_usize(type_field.as_slice(), line_number) {
        Ok(n) => n,
        Err(e) => {
            return Err(e);
        },
    };
    let text = if line.len() >= 11 {
        trim_end_vec(&subvec(line, 11, line.len()))
    } else {
        Vec::<char>::new()
    };
    proof {
        if line@.len() < 11 {
            assert(text@ =~= Seq::<char>::empty());
        }
    }
    Ok(ParsedItems::Remark(number, string_of(&text)))
}

/// Decodes an atom or hetero-atom line.
#[verifier::rlimit(60)]
#[verifier::loop_isolation(false)]
pub fn parse_atom(line: &Vec<char>, line_number: usize, hetero: bool) -> (r: Result<
    ParsedItems,
    PDBError,
>)
    ensures
        r is Ok <==> decode_atom_spec(line@, hetero) is Some,
        r matches Ok(it) ==> decode_atom_spec(line@, hetero) == Some(it@),
        r matches Err(e) ==> parse_error_at(e, line_number as int),
{
    if line.len() < 54 {
        return Err(decode_failure(line_number, line));
    }
    let serial_number = match parse_usize(subvec(line, 6, 11).as_slice(), line_number) {
        Ok(n) => n,
        Err(e) => {
            return Err(e);
        },
    };
    let atom_name = string_of(&subvec(line, 12, 16));
    let res_name = string_of(&subvec(line, 17, 20));
    let chain_vec = subvec(line, 21, 22);
    proof {
        assert(chain_vec@ =~= seq![line@[21]]);
    }
    let chain_id = string_of(&chain_vec);
    let res_seq = match parse_usize(subvec(line, 22, 26).as_slice(), line_number) {
        Ok(n) => n,
        Err(e) => {
            return Err(e);
        },
    };
    let x = match parse_fixed(subvec(line, 30, 38).as_slice(), 3, line_number) {
        Ok(v) => v,
        Err(e) => {
            return Err(e);
        },
    };
    let y = match parse_fixed(subvec(line, 38, 46).as_slice(), 3, line_number) {
        Ok(v) => v,
        Err(e) => {
            return Err(e);
        },
    };
    let z = match parse_fixed(subvec(line, 46, 54).as_slice(), 3, line_number) {
        Ok(v) => v,
        Err(e) => {
            return Err(e);
        },
    };
    let mut occupancy: i64 = 100;
    if line.len() >= 60 {
        occupancy = match parse_fixed(subvec(line, 54, 60).as_slice(), 2, line_number) {
            Ok(v) => v,
            Err(e) => {
                return Err(e);
            },
        };
    }
    let mut temp_factor: i64 = 0;
    if line.len() >= 66 {
        temp_factor = match parse_fixed(subvec(line, 60, 66).as_slice(), 2, line_number) {
            Ok(v) => v,
            Err(e) => {
                return Err(e);
            },
        };
    }
    let element: String = if line.len() >= 78 {
        string_of(&subvec(line, 76, 78))
    } else if line.len() == 77 {
        string_of(&subvec(line, 76, 77))
    } else {
        let empty_vec = Vec::<char>::new();
        proof {
            assert(empty_vec@ =~= element_spec(line@));
        }
        string_of(&empty_vec)
    };
    let mut charge: isize = 0;
    if line.len() >= 80 && !(is_space_char(line[78]) && is_space_char(line[79])) {
        if !is_digit_char(line[78]) {
            return Err(decode_failure(line_number, line));
        }
        if !(line[79] == '-' || line[79] == '+') {
            return Err(decode_failure(line_number, line));
        }
        charge = ((line[78] as u32) - 48) as isize;
    }
    Ok(
        ParsedItems::Atom(
            AtomRecord {
                hetero,
                serial_number,
                atom_name,
                alt_location: None,
                res_name,
                chain_id,
                res_seq,
                i_code: None,
                x,
                y,
                z,
                occupancy,
                temp_factor,
                segment_id: None,
                element,
                charge,
            },
        ),
    )
}

/// Whether `line` begins with the characters of `tag`.
pub fn has_prefix(line: &Vec<char>, tag: &str) -> (r: bool)
    requires
        tag@.len() <= line@.len(),
    ensures
        r == (line@.subrange(0, tag@.len() as int) == tag@),
{
    let n = tag.unicode_len();
    let mut i: usize = 0;
    while i < n
        invariant
            i <= n,
            n == tag@.len() <= line@.len(),
            forall|k: int| 0 <= k < i ==> line@[k] == tag@[k],
        decreases n - i,
    {
        if line[i] != tag.get_char(i) {
            proof {
                assert(line@.subrange(0, tag@.len() as int)[i as int] != tag@[i as int]);
            }
            return false;
        }
        i = i + 1;
    }
    proof {
        assert(line@.subrange(0, tag@.len() as int) =~= tag@);
    }
    true
}

/// Decodes one line into a typed record. Unmatched lines decode as
/// ignorable; a matched tag whose fields break their column contract is an
/// error carrying the 1-based line number.
pub fn parse_line(line: &Vec<char>, line_number: usize) -> (r: Result<ParsedItems, PDBError>)
    ensures
        r is Ok <==> decode_spec(line@) is Some,
        r matches Ok(it) ==> decode_spec(line@) == Some(it@),
        r matches Err(e) ==> parse_error_at(e, line_number as int),
{
    proof {
        reveal_strlit("HEADER");
        reveal_strlit("REMARK");
        reveal_strlit("HETATM");
        reveal_strlit("ATOM  ");
        reveal_strlit("TER   ");
        reveal_strlit("END   ");
        reveal_strlit("TER");
        reveal_strlit("END");
    }
    if line.len() > 6 {
        if has_prefix(line, "HEADER") {
            parse_header(line, line_number)
        } else if has_prefix(line, "REMARK") {
            parse_remarks(line, line_number)
        } else if has_prefix(line, "HETATM") {
            parse_atom(line, line_number, true)
        } else if has_prefix(line, "ATOM  ") {
            parse_atom(line, line_number, false)
        } else if has_prefix(line, "TER   ") {
            Ok(ParsedItems::Ter)
        } else if has_prefix(line, "END   ") {
            Ok(ParsedItems::End)
        } else {
            Ok(ParsedItems::Empty)
        }
    } else if line.len() > 2 {
        if has_prefix(line, "TER") {
            Ok(ParsedItems::Ter)
        } else if has_prefix(line, "END") {
            Ok(ParsedItems::End)
        } else {
            Ok(ParsedItems::Empty)
        }
    } else {
        Ok(ParsedItems::Empty)
    }
}

/// Reads a whole document from its lines: every line is decoded and folded
/// in order, and the first failure aborts the read with its 1-based line
/// number on decode errors.
#[verifier::loop_isolation(false)]
pub fn read_pdb_raw(lines: &Vec<String>) -> (r: Result<PDB, PDBError>)
    ensures
        r is Ok <==> read_spec(lines.deep_view()) is Ok,
        r matches Ok(p) ==> read_spec(lines.deep_view()) == Ok::<PDBModel, int>(p@) && pdb_wf(p@),
        r matches Err(e) ==> read_spec(lines.deep_view()) matches Err(n) && (e matches
            PDBError::ParseError(ln, _) ==> ln == n),
{
    let ghost dv = lines.deep_view();
    let mut pdb = PDB::new();
    proof {
        assert(pdb@ =~= empty_model());
    }
    let mut i: usize = 0;
    while i < lines.len()
        invariant
            i <= lines@.len(),
            read_from_spec(dv, i as int, pdb@) == read_spec(dv),
            pdb_wf(pdb@),
        decreases lines@.len() - i,
    {
        let chars = chars_of(lines[i].as_str());
        proof {
            assert(chars@ == dv[i as int]);
        }
        let item = match parse_line(&chars, i + 1) {
            Ok(it) => it,
            Err(e) => {
                return Err(e);
            },
        };
        let ghost m_before = pdb@;
        match item {
            ParsedItems::Header(_title, _date, id) => {
                match pdb.set_identifier(id.as_str()) {
                    Ok(_u) => (),
                    Err(e) => {
                        return Err(e);
                    },
                }
            },
            ParsedItems::Remark(number, text) => {
                match pdb.add_remarks(number, text.as_str()) {
                    Ok(_u) => (),
                    Err(e) => {
                        return Err(e);
                    },
                }
            },
            ParsedItems::Atom(rec) => {
                match Atom::new(
                    rec.hetero,
                    rec.serial_number,
                    rec.atom_name.as_str(),
                    rec.res_name.as_str(),
                    rec.chain_id.as_str(),
                    rec.res_seq,
                    rec.x,
                    rec.y,
                    rec.z,
                    rec.occupancy,
                    rec.temp_factor,
                    rec.element.as_str(),
                    rec.charge,
                ) {
                    Some(a) => {
                        pdb.add_atom(a);
                    },
                    None => {
                        return Err(PDBError::InvalidValue(String::new()));
                    },
                }
            },
            ParsedItems::Ter => (),
            ParsedItems::End => (),
            ParsedItems::Empty => (),
        }
        proof {
            assert(fold_spec(m_before, item@) == Some(pdb@));
        }
        i = i + 1;
    }
    Ok(pdb)
}

} // verus!
