//! The record encoder: serializes a `PDB` back to fixed-column text, every
//! line blank-padded to a minimum width of 70 characters.

use vstd::prelude::*;

use crate::atom::{Atom, AtomModel};
use crate::num::{abs_val, dec_digits, fixed_repr, fmt_fixed, fmt_isize, fmt_usize, int_repr};
use crate::pdb::{PDBModel, PDB};
use crate::text::{
    center_spec, chars_of, pad_left_spec, pad_right_spec, push_all, push_spaces, spaces, string_of,
    subvec,
};

verus! {

/// A line padded with trailing blanks to the minimum width of 70 characters.
pub open spec fn pad_line_spec(s: Seq<char>) -> Seq<char> {
    if s.len() < 70 {
        s + spaces((70 - s.len()) as nat)
    } else {
        s
    }
}

/// An optional one-character field: the value when present, one blank
/// otherwise, left-justified to one column.
pub open spec fn opt_field_spec(o: Option<Seq<char>>) -> Seq<char> {
    match o {
        Some(s) => pad_right_spec(s, 1),
        None => seq![' '],
    }
}

/// The trailing charge field: nothing when the charge is zero, the signed
/// numeral otherwise.
pub open spec fn charge_field_spec(c: int) -> Seq<char> {
    if c == 0 {
        Seq::<char>::empty()
    } else {
        int_repr(c)
    }
}

/// One encoded atom line: the record tag, then every field at its column,
/// mirroring the decoder's offsets.
pub open spec fn encode_atom_spec(a: AtomModel) -> Seq<char> {
    (if a.hetero {
        "HETATM"@
    } else {
        "ATOM  "@
    }) + pad_left_spec(dec_digits(abs_val(a.serial_number)), 5) + seq![' '] + center_spec(
        a.atom_name,
        4,
    ) + opt_field_spec(a.alt_location) + pad_right_spec(a.res_name, 4) + pad_right_spec(
        a.chain_id,
        1,
    ) + pad_right_spec(dec_digits(abs_val(a.res_seq)), 4) + opt_field_spec(a.i_code) + spaces(3)
        + pad_left_spec(fixed_repr(a.x, 3), 8) + pad_left_spec(fixed_repr(a.y, 3), 8)
        + pad_left_spec(fixed_repr(a.z, 3), 8) + pad_left_spec(fixed_repr(a.occupancy, 2), 6)
        + pad_left_spec(fixed_repr(a.temp_factor, 2), 6) + spaces(10) + pad_left_spec(a.element, 2)
        + charge_field_spec(a.charge)
}

/// One encoded header line: the tag, 56 blanks, the identifier.
pub open spec fn encode_header_spec(id: Seq<char>) -> Seq<char> {
    "HEADER"@ + spaces(56) + id
}

/// One encoded remark line: the tag and a blank, the right-justified
/// three-column type code, a blank, the text.
pub open spec fn encode_remark_spec(n: int, text: Seq<char>) -> Seq<char> {
    "REMARK "@ + pad_left_spec(dec_digits(abs_val(n)), 3) + seq![' '] + text
}

/// Every line a structure serializes to, in order: unless atoms alone are
/// asked for, a header line when an identifier is set and one line per
/// remark; then one line per atom; then one terminator line. Every line is
/// padded to 70 characters.
pub open spec fn encode_lines_spec(m: PDBModel, atom_only: bool) -> Seq<Seq<char>> {
    let head: Seq<Seq<char>> = if atom_only {
        Seq::empty()
    } else {
        (match m.identifier {
            Some(id) => seq![pad_line_spec(encode_header_spec(id))],
            None => Seq::<Seq<char>>::empty(),
        }) + m.remarks.map_values(|t: (int, Seq<char>)| pad_line_spec(encode_remark_spec(t.0, t.1)))
    };
    head + m.atoms.map_values(|a: AtomModel| pad_line_spec(encode_atom_spec(a))) + seq![
        pad_line_spec("TER"@),
    ]
}

/// Pads a line with trailing blanks to the minimum width.
pub fn pad_line(line: Vec<char>) -> (r: Vec<char>)
    ensures
        r@ == pad_line_spec(line@),
{
    let mut out = line;
    if out.len() < 70 {
        let n = 70 - out.len();
        push_spaces(&mut out, n);
    }
    out
}

/// `v` right-justified in a field of `w` characters.
pub fn pad_left_vec(v: &Vec<char>, w: usize) -> (r: Vec<char>)
    ensures
        r@ == pad_left_spec(v@, w as nat),
{
    let mut out: Vec<char> = Vec::new();
    if v.len() < w {
        push_spaces(&mut out, w - v.len());
    }
    push_all(&mut out, v);
    proof {
        if v@.len() >= w as nat {
            assert(out@ =~= v@);
        }
    }
    out
}

/// `v` left-justified in a field of `w` characters.
pub fn pad_right_vec(v: &Vec<char>, w: usize) -> (r: Vec<char>)
    ensures
        r@ == pad_right_spec(v@, w as nat),
{
    let mut out = subvec(v, 0, v.len());
    proof {
        assert(out@ =~= v@);
    }
    if v.len() < w {
        push_spaces(&mut out, w - v.len());
    }
    out
}

/// `v` centered in a field of `w` characters, the odd blank going right.
pub fn center_vec(v: &Vec<char>, w: usize) -> (r: Vec<char>)
    ensures
        r@ == center_spec(v@, w as nat),
{
    if v.len() >= w {
        let out = subvec(v, 0, v.len());
        proof {
            assert(out@ =~= v@);
        }
        out
    } else {
        let left = (w - v.len()) / 2;
        let mut out: Vec<char> = Vec::new();
        push_spaces(&mut out, left);
        push_all(&mut out, v);
        push_spaces(&mut out, w - v.len() - left);
        out
    }
}

/// The optional one-character field of `o`.
fn opt_field(o: Option<&str>) -> (r: Vec<char>)
    ensures
        r@ == opt_field_spec(match o {
            Some(s) => Some(s@),
            None => None,
        }),
{
    match o {
        Some(s) => {
            let cv = chars_of(s);
            pad_right_vec(&cv, 1)
        },
        None => {
            let mut v: Vec<char> = Vec::new();
            v.push(' ');
            proof {
                assert(v@ =~= seq![' ']);
            }
            v
        },
    }
}

/// Encodes one atom line, unpadded.
#[verifier::rlimit(60)]
pub fn encode_atom_line(a: &Atom) -> (r: Vec<char>)
    ensures
        r@ == encode_atom_spec(a@),
{
    let mut out: Vec<char> = Vec::new();
    let tag = if a.hetero() {
        "HETATM"
    } else {
        "ATOM  "
    };
    let tag_chars = chars_of(tag);
    push_all(&mut out, &tag_chars);
    proof {
        if a@.hetero {
            assert(tag_chars@ == "HETATM"@);
        } else {
            assert(tag_chars@ == "ATOM  "@);
        }
    }
    let serial = fmt_usize(a.serial_number());
    let serial_field = pad_left_vec(&serial, 5);
    push_all(&mut out, &serial_field);
    out.push(' ');
    proof {
        assert(out@ =~= (if a@.hetero {
            "HETATM"@
        } else {
            "ATOM  "@
        }) + pad_left_spec(dec_digits(abs_val(a@.serial_number)), 5) + seq![' ']);
    }
    let name_chars = chars_of(a.atom_name().as_str());
    let name_field = center_vec(&name_chars, 4);
    push_all(&mut out, &name_field);
    let alt_field = opt_field(a.alt_location());
    push_all(&mut out, &alt_field);
    let res_chars = chars_of(a.res_name().as_str());
    let res_field = pad_right_vec(&res_chars, 4);
    push_all(&mut out, &res_field);
    let chain_chars = chars_of(a.chain_id().as_str());
    let chain_field = pad_right_vec(&chain_chars, 1);
    push_all(&mut out, &chain_field);
    let res_seq = fmt_usize(a.res_seq());
    let res_seq_field = pad_right_vec(&res_seq, 4);
    push_all(&mut out, &res_seq_field);
    let icode_field = opt_field(a.i_code());
    push_all(&mut out, &icode_field);
    push_spaces(&mut out, 3);
    let (x, y, z) = a.position();
    let xf = pad_left_vec(&fmt_fixed(x, 3), 8);
    push_all(&mut out, &xf);
    let yf = pad_left_vec(&fmt_fixed(y, 3), 8);
    push_all(&mut out, &yf);
    let zf = pad_left_vec(&fmt_fixed(z, 3), 8);
    push_all(&mut out, &zf);
    let of = pad_left_vec(&fmt_fixed(a.occupancy(), 2), 6);
    push_all(&mut out, &of);
    let tf = pad_left_vec(&fmt_fixed(a.temp_factor(), 2), 6);
    push_all(&mut out, &tf);
    push_spaces(&mut out, 10);
    let elem_chars = chars_of(a.element().as_str());
    let elem_field = pad_left_vec(&elem_chars, 2);
    push_all(&mut out, &elem_field);
    if a.charge() != 0 {
        let charge_chars = fmt_isize(a.charge());
        push_all(&mut out, &charge_chars);
    }
    proof {
        assert(out@ =~= encode_atom_spec(a@));
    }
    out
}

/// Encodes the header line for `id`, unpadded.
pub fn encode_header_line(id: &str) -> (r: Vec<char>)
    ensures
        r@ == encode_header_spec(id@),
{
    let tag = chars_of("HEADER");
    let mut out: Vec<char> = Vec::new();
    push_all(&mut out, &tag);
    push_spaces(&mut out, 56);
    let idc = chars_of(id);
    push_all(&mut out, &idc);
    proof {
        assert(out@ =~= encode_header_spec(id@));
    }
    out
}

/// Encodes one remark line, unpadded.
pub fn encode_remark_line(n: usize, text: &str) -> (r: Vec<char>)
    ensures
        r@ == encode_remark_spec(n as int, text@),
{
    let tag = chars_of("REMARK ");
    let mut out: Vec<char> = Vec::new();
    push_all(&mut out, &tag);
    let num = fmt_usize(n);
    let num_field = pad_left_vec(&num, 3);
    push_all(&mut out, &num_field);
    out.push(' ');
    let tc = chars_of(text);
    push_all(&mut out, &tc);
    proof {
        assert(out@ =~= encode_remark_spec(n as int, text@));
    }
    out
}

/// Serializes the whole structure to its lines, in order: header and remarks
/// unless atoms alone are asked for, then the atoms, then one terminator
/// line; every line padded to 70 characters.
#[verifier::loop_isolation(false)]
#[verifier::rlimit(100)]
pub fn save_pdb_raw(pdb: &PDB, atom_only: bool) -> (r: Vec<String>)
    ensures
        r.deep_view() == encode_lines_spec(pdb@, atom_only),
{
    let ghost goal = encode_lines_spec(pdb@, atom_only);
    let mut out: Vec<String> = Vec::new();
    let ghost head_len: int = 0;
    if !atom_only {
        if let Some(id) = pdb.identifier() {
            let line = pad_line(encode_header_line(id.as_str()));
            out.push(string_of(&line));
        }
        let remarks = pdb.remarks();
        let mut i: usize = 0;
        proof {
            assert(out.deep_view() =~= goal.take(out@.len() as int));
        }
        while i < remarks.len()
            invariant
                i <= remarks@.len(),
                out@.len() == i + (if pdb@.identifier is Some {
                    1int
                } else {
                    0int
                }),
                out@.len() <= goal.len(),
                out.deep_view() =~= goal.take(out@.len() as int),
            decreases remarks@.len() - i,
        {
            let line = pad_line(encode_remark_line(remarks[i].0, remarks[i].1.as_str()));
            out.push(string_of(&line));
            i = i + 1;
            proof {
                assert(out.deep_view() =~= goal.take(out@.len() as int));
            }
        }
    }
    let atoms = pdb.atoms();
    let mut j: usize = 0;
    proof {
        assert(out.deep_view() =~= goal.take(out@.len() as int));
    }
    let ghost base = out@.len() as int;
    while j < atoms.len()
        invariant
            j <= atoms@.len(),
            out@.len() == base + j,
            base + atoms@.len() + 1 == goal.len(),
            out.deep_view() =~= goal.take(out@.len() as int),
        decreases atoms@.len() - j,
    {
        let line = pad_line(encode_atom_line(&atoms[j]));
        out.push(string_of(&line));
        j = j + 1;
        proof {
            assert(out.deep_view() =~= goal.take(out@.len() as int));
        }
    }
    let ter = chars_of("TER");
    let ter_line = pad_line(ter);
    let ghost before = out.deep_view();
    out.push(string_of(&ter_line));
    proof {
        let n = out@.len() as int;
        assert(n == goal.len());
        assert(goal[n - 1] == pad_line_spec("TER"@));
        assert forall|k: int| 0 <= k < n implies out.deep_view()[k] == goal[k] by {
            if k < n - 1 {
                assert(out.deep_view()[k] == before[k]);
                assert(before[k] == goal.take(n - 1)[k]);
            }
        }
        assert(out.deep_view() =~= goal);
    }
    out
}

} // verus!
