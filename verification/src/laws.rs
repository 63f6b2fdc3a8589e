//! The format's laws: an encoded line decodes back to the record it came
//! from, and a whole written document reads back to an equal structure.

use vstd::prelude::*;

use crate::atom::{atom_key_eq, atom_new_spec, atom_wf, AtomModel};
use crate::num::{
    dec_digits, digit_val, digits_val, fixed_repr, int_repr, lemma_dec_digits, lemma_dec_digits_len,
    lemma_parse_fixed_of_repr, lemma_parse_uint_of_repr, lemma_pow10_9, pow10,
};
use crate::pdb::{pdb_eq, pdb_wf, remark_type_allowed, PDBModel};
use crate::read::{
    charge_ok, charge_present, charge_spec, decode_atom_spec, decode_header_spec,
    decode_remark_spec, decode_spec, element_spec, empty_model, fold_spec, read_from_spec,
    read_spec, step_spec,
};
use crate::save::{
    charge_field_spec, encode_atom_spec, encode_header_spec, encode_lines_spec,
    encode_remark_spec, opt_field_spec, pad_line_spec,
};
use crate::num::abs_val;
use crate::text::{
    center_spec, lemma_normal_form, lemma_trim_back_spaces, lemma_trim_padded, lemma_trim_trimmed,
    lemma_upper_idempotent, normal_form, pad_left_spec, pad_right_spec, space_char, spaces,
    trim_back, trim_spec, trimmed, upper_spec,
};
use crate::validator::{allowed_char, prepare_spec, valid_ident};
use crate::item::RecModel;

verus! {

/// An atom whose every field fits its column: such an atom's line keeps its
/// offsets and survives the round trip.
pub open spec fn atom_fits(a: AtomModel) -> bool {
    &&& 0 <= a.serial_number <= 99999
    &&& a.atom_name.len() <= 4
    &&& valid_ident(a.res_name) && a.res_name.len() <= 3
    &&& valid_ident(a.chain_id) && a.chain_id.len() <= 1
    &&& 0 <= a.res_seq <= 9999
    &&& -999999 <= a.x <= 9999999
    &&& -999999 <= a.y <= 9999999
    &&& -999999 <= a.z <= 9999999
    &&& -9999 <= a.occupancy <= 99999
    &&& -9999 <= a.temp_factor <= 99999
    &&& a.element.len() <= 2
    &&& 0 <= a.charge <= 9
}

/// A structure whose every part fits its columns.
pub open spec fn pdb_fits(m: PDBModel) -> bool {
    &&& (m.identifier matches Some(id) ==> id.len() <= 4)
    &&& (forall|i: int|
        0 <= i < m.remarks.len() ==> valid_ident((#[trigger] m.remarks[i]).1)
            && m.remarks[i].1.len() <= 69 && (m.remarks[i].1.len() > 0 ==> m.remarks[i].1.last()
            != ' '))
    &&& (forall|i: int| 0 <= i < m.atoms.len() ==> atom_fits(#[trigger] m.atoms[i]))
}

/// What an atom reads back as: every field as written, except that the
/// charge digit stands past the read columns and comes back zero.
pub open spec fn written_atom(a: AtomModel) -> AtomModel {
    AtomModel { charge: 0, ..a }
}

/// Every blank is an allowed character, so padded fields stay valid.
proof fn lemma_spaces_valid(n: nat)
    ensures
        valid_ident(spaces(n)),
        forall|i: int| 0 <= i < n ==> space_char(#[trigger] spaces(n)[i]),
{
}

/// A normal-form value is trimmed, and upper-casing fixes it.
proof fn lemma_normal_fixed(s: Seq<char>)
    requires
        normal_form(s),
    ensures
        trimmed(s),
        upper_spec(s) == s,
{
    lemma_normal_form(s);
    lemma_upper_idempotent(trim_spec(s));
}

/// Trimming and upper-casing a normal-form value padded with blanks on both
/// sides recovers the value.
proof fn lemma_unpad_normal(p: Seq<char>, s: Seq<char>, q: Seq<char>)
    requires
        normal_form(s),
        forall|i: int| 0 <= i < p.len() ==> space_char(p[i]),
        forall|i: int| 0 <= i < q.len() ==> space_char(q[i]),
    ensures
        upper_spec(trim_spec(p + s + q)) == s,
{
    lemma_normal_fixed(s);
    lemma_trim_padded(p, s, q);
}

/// The length of a fixed-point numeral whose value fits its field.
proof fn lemma_fixed_repr_len(v: int, k: nat, digits: nat)
    requires
        1 <= k,
        v >= 0 ==> v < pow10(k + digits),
        v < 0 ==> -v < pow10((k + digits - 1) as nat),
        digits >= 2,
    ensures
        1 + k + 1 <= fixed_repr(v, k).len() <= 1 + digits + k,
        fixed_repr(v, k).len() <= 1 + digits + k,
{
    let m = if v < 0 {
        -v
    } else {
        v
    };
    let p = pow10(k) as int;
    crate::num::lemma_pow10_pos(k);
    vstd::arithmetic::div_mod::lemma_fundamental_div_mod(m, p);
    vstd::arithmetic::div_mod::lemma_mod_bound(m, p);
    vstd::arithmetic::div_mod::lemma_div_pos_is_pos(m, p);
    let ipd = dec_digits((m / p) as nat);
    let fpd0 = dec_digits((m % p) as nat);
    lemma_dec_digits((m / p) as nat);
    lemma_dec_digits((m % p) as nat);
    lemma_dec_digits_len((m % p) as nat, k);
    crate::num::lemma_pad_zeros_val(fpd0, k);
    let sign: Seq<char> = if v < 0 {
        seq!['-']
    } else {
        Seq::empty()
    };
    assert(fixed_repr(v, k) == sign + ipd + seq!['.'] + crate::num::pad_zeros(fpd0, k));
    assert(crate::num::pad_zeros(fpd0, k).len() == k);
    assert(fixed_repr(v, k).len() == sign.len() + ipd.len() + 1 + k);
    if v >= 0 {
        crate::num::lemma_pow10_add(digits, k);
        assert(m / p < pow10(digits)) by (nonlinear_arith)
            requires
                m == p * (m / p) + (m % p),
                0 <= m % p,
                m < pow10(digits) * pow10(k),
                p == pow10(k),
                p >= 1,
        {
        }
        lemma_dec_digits_len((m / p) as nat, digits);
    } else {
        crate::num::lemma_pow10_add((digits - 1) as nat, k);
        assert(m / p < pow10((digits - 1) as nat)) by (nonlinear_arith)
            requires
                m == p * (m / p) + (m % p),
                0 <= m % p,
                m < pow10((digits - 1) as nat) * pow10(k),
                p == pow10(k),
                p >= 1,
        {
        }
        lemma_dec_digits_len((m / p) as nat, (digits - 1) as nat);
    }
}

/// Encoding then decoding one atom record, folded into any model, appends
/// exactly the written atom.
#[verifier::rlimit(100)]
pub proof fn lemma_atom_round_trip(m: PDBModel, a: AtomModel)
    requires
        atom_wf(a),
        atom_fits(a),
    ensures
        ({
            let line = pad_line_spec(encode_atom_spec(a));
            &&& step_spec(m, line) == Some(PDBModel { atoms: m.atoms.push(written_atom(a)), ..m })
        }),
{
    reveal_strlit("HETATM");
    reveal_strlit("ATOM  ");
    reveal_strlit("HEADER");
    reveal_strlit("REMARK");
    reveal_strlit("TER   ");
    reveal_strlit("END   ");
    lemma_pow10_9();
    let f0 = if a.hetero {
        "HETATM"@
    } else {
        "ATOM  "@
    };
    let f1 = pad_left_spec(dec_digits(abs_val(a.serial_number)), 5);
    let f2: Seq<char> = seq![' '];
    let f3 = center_spec(a.atom_name, 4);
    let f4 = opt_field_spec(a.alt_location);
    let f5 = pad_right_spec(a.res_name, 4);
    let f6 = pad_right_spec(a.chain_id, 1);
    let f7 = pad_right_spec(dec_digits(abs_val(a.res_seq)), 4);
    let f8 = opt_field_spec(a.i_code);
    let f9 = spaces(3);
    let f10 = pad_left_spec(fixed_repr(a.x, 3), 8);
    let f11 = pad_left_spec(fixed_repr(a.y, 3), 8);
    let f12 = pad_left_spec(fixed_repr(a.z, 3), 8);
    let f13 = pad_left_spec(fixed_repr(a.occupancy, 2), 6);
    let f14 = pad_left_spec(fixed_repr(a.temp_factor, 2), 6);
    let f15 = spaces(10);
    let e16 = pad_left_spec(a.element, 2);
    let f17 = charge_field_spec(a.charge);
    let enc = encode_atom_spec(a);
    // segment lengths
    lemma_dec_digits(abs_val(a.serial_number));
    lemma_dec_digits_len(abs_val(a.serial_number), 5);
    assert(f1.len() == 5);
    assert(f3.len() == 4);
    assert(f4 == seq![' ']);
    assert(f5.len() == 4);
    assert(f6.len() == 1);
    lemma_dec_digits(abs_val(a.res_seq));
    lemma_dec_digits_len(abs_val(a.res_seq), 4);
    assert(f7.len() == 4);
    assert(f8 == seq![' ']);
    lemma_fixed_repr_len(a.x, 3, 4);
    lemma_fixed_repr_len(a.y, 3, 4);
    lemma_fixed_repr_len(a.z, 3, 4);
    lemma_fixed_repr_len(a.occupancy, 2, 3);
    lemma_fixed_repr_len(a.temp_factor, 2, 3);
    assert(f10.len() == 8 && f11.len() == 8 && f12.len() == 8);
    assert(f13.len() == 6 && f14.len() == 6);
    assert(e16.len() == 2);
    if a.charge != 0 {
        lemma_dec_digits(a.charge as nat);
        assert(f17 == dec_digits(a.charge as nat));
        assert(f17.len() == 1);
    } else {
        assert(f17.len() == 0);
    }
    assert(enc == f0 + f1 + f2 + f3 + f4 + f5 + f6 + f7 + f8 + f9 + f10 + f11 + f12 + f13 + f14
        + f15 + e16 + f17);
    assert(enc.len() == 78 + f17.len());
    let line = pad_line_spec(enc);
    assert(line == enc);
    // the tag dispatches to the atom decoder
    assert(line.subrange(0, 6) =~= f0);
    assert("HETATM"@[0] == 'H' && "ATOM  "@[0] == 'A' && "HEADER"@[0] == 'H' && "HEADER"@[2]
        == 'A' && "HETATM"@[2] == 'T' && "REMARK"@[0] == 'R' && "TER   "@[0] == 'T' && "END   "@[0]
        == 'E');
    if a.hetero {
        assert(f0 == "HETATM"@);
        assert(f0[2] != "HEADER"@[2]);
        assert(f0[0] != "REMARK"@[0] && f0[0] != "TER   "@[0] && f0[0] != "END   "@[0] && f0[0]
            != "ATOM  "@[0]);
    } else {
        assert(f0 == "ATOM  "@);
        assert(f0[0] != "HEADER"@[0] && f0[0] != "REMARK"@[0] && f0[0] != "TER   "@[0] && f0[0]
            != "END   "@[0] && f0[0] != "HETATM"@[0]);
    }
    assert(f0 != "HEADER"@ && f0 != "REMARK"@ && f0 != "TER   "@ && f0 != "END   "@);
    // field extraction
    assert(line.subrange(6, 11) =~= f1);
    assert(line.subrange(12, 16) =~= f3);
    assert(line.subrange(17, 20) =~= f5.take(3));
    assert(line[21] == f6[0]);
    assert(line.subrange(22, 26) =~= f7);
    assert(line.subrange(30, 38) =~= f10);
    assert(line.subrange(38, 46) =~= f11);
    assert(line.subrange(46, 54) =~= f12);
    assert(line.subrange(54, 60) =~= f13);
    assert(line.subrange(60, 66) =~= f14);
    assert(line.subrange(76, 78) =~= e16);
    // the numeric fields read back
    lemma_parse_uint_of_repr(abs_val(a.serial_number), 5);
    lemma_parse_uint_of_repr(abs_val(a.res_seq), 4);
    assert(pad_right_spec(dec_digits(abs_val(a.res_seq)), 4) == dec_digits(abs_val(a.res_seq))
        + spaces((4 - dec_digits(abs_val(a.res_seq)).len()) as nat) || pad_right_spec(
        dec_digits(abs_val(a.res_seq)),
        4,
    ) == dec_digits(abs_val(a.res_seq)));
    lemma_uint_left_justified(abs_val(a.res_seq), 4);
    lemma_parse_fixed_of_repr(a.x, 3, 8);
    lemma_parse_fixed_of_repr(a.y, 3, 8);
    lemma_parse_fixed_of_repr(a.z, 3, 8);
    lemma_parse_fixed_of_repr(a.occupancy, 2, 6);
    lemma_parse_fixed_of_repr(a.temp_factor, 2, 6);
    // no charge columns are reached
    assert(line.len() < 80);
    assert(!charge_present(line));
    assert(charge_ok(line));
    assert(charge_spec(line) == 0);
    // the element field
    assert(element_spec(line) == e16);
    // the decoded record
    let rec = decode_spec(line);
    assert(decode_atom_spec(line, a.hetero) is Some);
    assert(rec == decode_atom_spec(line, a.hetero));
    let raw = rec.unwrap()->Atom_0;
    assert(raw.serial_number == a.serial_number);
    assert(raw.res_seq == a.res_seq);
    assert(raw.x == a.x && raw.y == a.y && raw.z == a.z);
    assert(raw.occupancy == a.occupancy && raw.temp_factor == a.temp_factor);
    assert(raw.charge == 0);
    // normalization recovers the stored fields
    lemma_normal_fixed(a.atom_name);
    if a.atom_name.len() < 4 {
        let l = ((4 - a.atom_name.len()) / 2) as nat;
        let r = (4 - a.atom_name.len() - l) as nat;
        lemma_spaces_valid(l);
        lemma_spaces_valid(r);
        lemma_unpad_normal(spaces(l), a.atom_name, spaces(r));
        assert(valid_ident(f3));
    } else {
        assert(f3 == a.atom_name);
        lemma_trim_trimmed(a.atom_name);
        assert(upper_spec(trim_spec(f3)) == a.atom_name);
    }
    assert(raw.atom_name == f3);
    assert(upper_spec(trim_spec(raw.atom_name)) == a.atom_name);
    lemma_normal_fixed(a.res_name);
    lemma_spaces_valid((3 - a.res_name.len()) as nat);
    assert(raw.res_name =~= Seq::<char>::empty() + a.res_name + spaces(
        (3 - a.res_name.len()) as nat,
    ));
    lemma_unpad_normal(Seq::empty(), a.res_name, spaces((3 - a.res_name.len()) as nat));
    assert(upper_spec(trim_spec(raw.res_name)) == a.res_name);
    lemma_normal_fixed(a.chain_id);
    if a.chain_id.len() == 1 {
        assert(raw.chain_id =~= a.chain_id);
        lemma_unpad_normal(Seq::empty(), a.chain_id, Seq::empty());
        assert(Seq::<char>::empty() + a.chain_id + Seq::<char>::empty() =~= a.chain_id);
    } else {
        assert(a.chain_id =~= Seq::<char>::empty());
        assert(raw.chain_id =~= seq![' ']);
        lemma_spaces_valid(1);
        assert(seq![' '] =~= spaces(1));
        lemma_unpad_normal(spaces(1), Seq::empty(), Seq::empty());
        assert(spaces(1) + Seq::<char>::empty() + Seq::<char>::empty() =~= seq![' ']);
    }
    assert(upper_spec(trim_spec(raw.chain_id)) == a.chain_id);
    lemma_normal_fixed(a.element);
    lemma_spaces_valid((2 - a.element.len()) as nat);
    assert(raw.element =~= spaces((2 - a.element.len()) as nat) + a.element
        + Seq::<char>::empty());
    lemma_unpad_normal(spaces((2 - a.element.len()) as nat), a.element, Seq::empty());
    assert(upper_spec(trim_spec(raw.element)) == a.element);
    // the fold validates and appends the written atom
    assert(valid_ident(raw.atom_name));
    assert(valid_ident(raw.element));
    let folded = atom_new_spec(
        raw.hetero,
        raw.serial_number,
        raw.atom_name,
        raw.res_name,
        raw.chain_id,
        raw.res_seq,
        raw.x,
        raw.y,
        raw.z,
        raw.occupancy,
        raw.temp_factor,
        raw.element,
        raw.charge,
    );
    assert(folded == Some(written_atom(a)));
}

/// Encoding then decoding one remark record, folded into any model, appends
/// exactly the remark.
#[verifier::rlimit(100)]
pub proof fn lemma_remark_round_trip(m: PDBModel, n: int, text: Seq<char>)
    requires
        remark_type_allowed(n),
        valid_ident(text),
        text.len() <= 69,
        text.len() > 0 ==> text.last() != ' ',
    ensures
        ({
            let line = pad_line_spec(encode_remark_spec(n, text));
            &&& step_spec(m, line) == Some(PDBModel { remarks: m.remarks.push((n, text)), ..m })
        }),
{
    reveal_strlit("REMARK ");
    reveal_strlit("REMARK");
    reveal_strlit("HEADER");
    reveal_strlit("HETATM");
    reveal_strlit("ATOM  ");
    reveal_strlit("TER   ");
    reveal_strlit("END   ");
    lemma_pow10_9();
    assert(0 <= n <= 999);
    let nf = pad_left_spec(dec_digits(abs_val(n)), 3);
    lemma_dec_digits(abs_val(n));
    lemma_dec_digits_len(abs_val(n), 3);
    assert(nf.len() == 3);
    let enc = encode_remark_spec(n, text);
    assert(enc.len() == 11 + text.len());
    let line = pad_line_spec(enc);
    assert(10 <= line.len() <= 80);
    assert(line.len() > 6);
    let tag = line.subrange(0, 6);
    assert(tag =~= "REMARK"@);
    assert(tag[0] != "HEADER"@[0]);
    assert(line.subrange(7, 10) =~= nf);
    lemma_parse_uint_of_repr(abs_val(n), 3);
    // the text comes back right-trimmed
    let rest = line.subrange(11, line.len() as int);
    let pad = (line.len() - 11 - text.len()) as nat;
    assert(rest =~= text + spaces(pad));
    lemma_spaces_valid(pad);
    lemma_trim_back_spaces(text, spaces(pad));
    if text.len() > 0 {
        assert(allowed_char(text.last()));
        assert(!space_char(text.last()));
    }
    assert(trim_back(text) == text);
    assert(trim_back(rest) == text);
    assert(decode_remark_spec(line) == Some(RecModel::Remark(n, text)));
}

/// Encoding then decoding a header line, folded into any model, sets exactly
/// the identifier.
#[verifier::rlimit(100)]
pub proof fn lemma_header_round_trip(m: PDBModel, id: Seq<char>)
    requires
        valid_ident(id),
        normal_form(id),
        1 <= id.len() <= 4,
    ensures
        ({
            let line = pad_line_spec(encode_header_spec(id));
            &&& step_spec(m, line) == Some(PDBModel { identifier: Some(id), ..m })
        }),
{
    reveal_strlit("HEADER");
    reveal_strlit("REMARK");
    reveal_strlit("HETATM");
    reveal_strlit("ATOM  ");
    reveal_strlit("TER   ");
    reveal_strlit("END   ");
    let enc = encode_header_spec(id);
    assert(enc.len() == 62 + id.len());
    let line = pad_line_spec(enc);
    assert(line.len() == 70);
    let tag = line.subrange(0, 6);
    assert(tag =~= "HEADER"@);
    assert(tag[0] != "REMARK"@[0] && tag[0] != "ATOM  "@[0] && tag[0] != "TER   "@[0] && tag[0]
        != "END   "@[0] && tag[2] != "HETATM"@[2]);
    let idf = line.subrange(62, 66);
    assert(idf =~= Seq::<char>::empty() + id + spaces((4 - id.len()) as nat));
    lemma_spaces_valid((4 - id.len()) as nat);
    lemma_normal_fixed(id);
    lemma_trim_padded(Seq::empty(), id, spaces((4 - id.len()) as nat));
    assert(trim_spec(idf) == id);
    assert(valid_ident(idf));
    assert(prepare_spec(idf) == Some(id));
    assert(decode_header_spec(line) == Some(
        RecModel::Header(line.subrange(10, 50), line.subrange(50, 59), idf),
    ));
}

/// The terminator line decodes to the terminator record, which folds to no
/// change.
pub proof fn lemma_ter_round_trip(m: PDBModel)
    ensures
        step_spec(m, pad_line_spec("TER"@)) == Some(m),
{
    reveal_strlit("TER");
    reveal_strlit("HEADER");
    reveal_strlit("REMARK");
    reveal_strlit("HETATM");
    reveal_strlit("ATOM  ");
    reveal_strlit("TER   ");
    reveal_strlit("END   ");
    let line = pad_line_spec("TER"@);
    assert(line.len() == 70);
    let tag = line.subrange(0, 6);
    assert(tag =~= "TER   "@);
    assert(tag[0] != "HEADER"@[0] && tag[0] != "REMARK"@[0] && tag[0] != "HETATM"@[0] && tag[0]
        != "ATOM  "@[0] && tag[0] != "END   "@[0]);
}

/// Folding the encoded atom lines from `k` on, then the terminator, extends
/// the accumulator by exactly the written atoms.
#[verifier::rlimit(100)]
#[verifier::spinoff_prover]
proof fn lemma_read_atoms(lines: Seq<Seq<char>>, i: int, acc: PDBModel, m: PDBModel, k: int)
    requires
        0 <= k <= m.atoms.len(),
        0 <= i,
        i + (m.atoms.len() - k) + 1 == lines.len(),
        forall|j: int|
            k <= j < m.atoms.len() ==> atom_wf(#[trigger] m.atoms[j]) && atom_fits(m.atoms[j]),
        forall|j: int|
            k <= j < m.atoms.len() ==> lines[i + (j - k)] == pad_line_spec(
                encode_atom_spec(#[trigger] m.atoms[j]),
            ),
        lines[lines.len() - 1] == pad_line_spec("TER"@),
    ensures
        read_from_spec(lines, i, acc) == Ok::<PDBModel, int>(
            PDBModel {
                atoms: acc.atoms + m.atoms.skip(k).map_values(|a: AtomModel| written_atom(a)),
                ..acc
            },
        ),
    decreases m.atoms.len() - k,
{
    let f = |a: AtomModel| written_atom(a);
    if k == m.atoms.len() {
        lemma_ter_round_trip(acc);
        assert(lines[i] == pad_line_spec("TER"@));
        assert(read_from_spec(lines, i, acc) == read_from_spec(lines, i + 1, acc));
        assert(m.atoms.skip(k).map_values(f) =~= Seq::<AtomModel>::empty());
        assert(acc.atoms + m.atoms.skip(k).map_values(f) =~= acc.atoms);
        assert(PDBModel { atoms: acc.atoms, ..acc } == acc);
    } else {
        assert(lines[i] == pad_line_spec(encode_atom_spec(m.atoms[k])));
        lemma_atom_round_trip(acc, m.atoms[k]);
        let acc2 = PDBModel { atoms: acc.atoms.push(written_atom(m.atoms[k])), ..acc };
        assert(read_from_spec(lines, i, acc) == read_from_spec(lines, i + 1, acc2));
        lemma_read_atoms(lines, i + 1, acc2, m, k + 1);
        assert(acc2.atoms + m.atoms.skip(k + 1).map_values(f) =~= acc.atoms + m.atoms.skip(
            k,
        ).map_values(f));
    }
}

/// Folding the encoded remark lines from `k` on extends the accumulator by
/// exactly those remarks and moves the read to the line after them.
#[verifier::rlimit(100)]
#[verifier::spinoff_prover]
proof fn lemma_read_remarks(lines: Seq<Seq<char>>, i: int, acc: PDBModel, m: PDBModel, k: int)
    requires
        0 <= k <= m.remarks.len(),
        0 <= i,
        i + (m.remarks.len() - k) <= lines.len(),
        forall|j: int|
            k <= j < m.remarks.len() ==> remark_type_allowed((#[trigger] m.remarks[j]).0)
                && valid_ident(m.remarks[j].1) && m.remarks[j].1.len() <= 69 && (
            m.remarks[j].1.len() > 0 ==> m.remarks[j].1.last() != ' '),
        forall|j: int|
            k <= j < m.remarks.len() ==> lines[i + (j - k)] == pad_line_spec(
                encode_remark_spec((#[trigger] m.remarks[j]).0, m.remarks[j].1),
            ),
    ensures
        read_from_spec(lines, i, acc) == read_from_spec(
            lines,
            i + (m.remarks.len() - k),
            PDBModel { remarks: acc.remarks + m.remarks.skip(k), ..acc },
        ),
    decreases m.remarks.len() - k,
{
    if k == m.remarks.len() {
        assert(acc.remarks + m.remarks.skip(k) =~= acc.remarks);
        assert(PDBModel { remarks: acc.remarks, ..acc } == acc);
    } else {
        let (n, text) = m.remarks[k];
        assert(lines[i] == pad_line_spec(encode_remark_spec(n, text)));
        lemma_remark_round_trip(acc, n, text);
        let acc2 = PDBModel { remarks: acc.remarks.push((n, text)), ..acc };
        assert(read_from_spec(lines, i, acc) == read_from_spec(lines, i + 1, acc2));
        lemma_read_remarks(lines, i + 1, acc2, m, k + 1);
        assert(acc2.remarks + m.remarks.skip(k + 1) =~= acc.remarks + m.remarks.skip(k));
    }
}

/// Round trip: writing a structure whose parts fit their columns, then
/// reading the lines back, yields a structure whose identifier and remarks
/// match and whose atoms compare equal, in order, under the atom equality.
/// Only the charge field is not carried back: its digit stands past the read
/// columns.
#[verifier::rlimit(100)]
#[verifier::spinoff_prover]
pub proof fn lemma_write_read_round_trip(m: PDBModel)
    requires
        pdb_wf(m),
        pdb_fits(m),
    ensures
        ({
            let lines = encode_lines_spec(m, false);
            &&& read_spec(lines) matches Ok(m2) && pdb_eq(m2, m) && m2.identifier == m.identifier
                && m2.remarks == m.remarks && m2.atoms == m.atoms.map_values(
                |a: AtomModel| written_atom(a),
            )
        }),
{
    let lines = encode_lines_spec(m, false);
    let id_cnt: int = if m.identifier is Some {
        1
    } else {
        0
    };
    let rlen = m.remarks.len() as int;
    let alen = m.atoms.len() as int;
    assert(lines.len() == id_cnt + rlen + alen + 1);
    assert(lines[lines.len() - 1] == pad_line_spec("TER"@));
    assert(forall|j: int|
        0 <= j < rlen ==> lines[id_cnt + j] == pad_line_spec(
            encode_remark_spec((#[trigger] m.remarks[j]).0, m.remarks[j].1),
        ));
    assert(forall|j: int|
        0 <= j < alen ==> lines[id_cnt + rlen + j] == pad_line_spec(
            encode_atom_spec(#[trigger] m.atoms[j]),
        ));
    let m0 = empty_model();
    let m1 = PDBModel { identifier: m.identifier, ..m0 };
    if m.identifier is Some {
        let id = m.identifier.unwrap();
        assert(lines[0] == pad_line_spec(encode_header_spec(id)));
        lemma_header_round_trip(m0, id);
        assert(read_from_spec(lines, 0, m0) == read_from_spec(lines, 1, m1));
    } else {
        assert(m1 == m0);
    }
    let m2 = PDBModel { remarks: m1.remarks + m.remarks.skip(0), ..m1 };
    lemma_read_remarks(lines, id_cnt, m1, m, 0);
    assert(read_from_spec(lines, id_cnt, m1) == read_from_spec(lines, id_cnt + rlen, m2));
    assert(m2.remarks =~= m.remarks);
    let f = |a: AtomModel| written_atom(a);
    lemma_read_atoms(lines, id_cnt + rlen, m2, m, 0);
    let m3 = PDBModel { atoms: m2.atoms + m.atoms.skip(0).map_values(f), ..m2 };
    assert(read_from_spec(lines, id_cnt + rlen, m2) == Ok::<PDBModel, int>(m3));
    assert(m.atoms.skip(0) =~= m.atoms);
    assert(m3.atoms =~= m.atoms.map_values(f));
    assert(read_spec(lines) == Ok::<PDBModel, int>(m3));
    assert(m3.identifier == m.identifier);
    assert(m3.remarks == m.remarks);
    // equality under the atom equality
    assert forall|i: int| 0 <= i < m3.atoms.len() implies atom_key_eq(
        #[trigger] m3.atoms[i],
        m.atoms[i],
    ) by {
        assert(m3.atoms[i] == written_atom(m.atoms[i]));
    }
    assert(pdb_eq(m3, m));
}

/// Any text holding a character outside the printable range is invalid, and
/// with it every constructor and mutator that validates its input rejects
/// it: their contracts condition success on `valid_ident` or `prepare_spec`.
pub proof fn lemma_disallowed_char_rejected(s: Seq<char>, i: int)
    requires
        0 <= i < s.len(),
        !allowed_char(s[i]),
    ensures
        !valid_ident(s),
        prepare_spec(s) is None,
{
}

/// A parsed unsigned field is non-negative.
proof fn lemma_parse_uint_nonneg(s: Seq<char>)
    requires
        crate::num::parse_uint_spec(s) is Some,
    ensures
        crate::num::parse_uint_spec(s).unwrap() >= 0,
{
    let t = crate::text::strip_spaces(s);
    let u = if t.len() > 0 && t[0] == '+' {
        t.drop_first()
    } else {
        t
    };
    crate::num::lemma_digits_val_nonneg(u);
}

/// A parsed fixed-point field lies within the machine range.
proof fn lemma_parse_fixed_bounds(s: Seq<char>, k: nat)
    requires
        crate::num::parse_fixed_spec(s, k) is Some,
    ensures
        -(i64::MAX as int) <= crate::num::parse_fixed_spec(s, k).unwrap() <= i64::MAX as int,
{
    let t = crate::text::strip_spaces(s);
    let u = if t[0] == '-' || t[0] == '+' {
        t.drop_first()
    } else {
        t
    };
    let d = crate::num::dot_pos(u);
    let ipart = u.take(d);
    let fpart = if d == u.len() {
        Seq::<char>::empty()
    } else {
        u.subrange(d + 1, u.len() as int)
    };
    let keep = if fpart.len() < k {
        fpart.len() as int
    } else {
        k as int
    };
    let ftr = fpart.take(keep);
    crate::num::lemma_digits_val_nonneg(ipart);
    crate::num::lemma_digits_val_nonneg(ftr);
    crate::num::lemma_pow10_pos(k);
    crate::num::lemma_pow10_pos((k - keep) as nat);
    assert(digits_val(ipart) * pow10(k) >= 0 && digits_val(ftr) * pow10((k - keep) as nat) >= 0)
        by (nonlinear_arith)
        requires
            digits_val(ipart) >= 0,
            digits_val(ftr) >= 0,
            pow10(k) >= 1,
            pow10((k - keep) as nat) >= 1,
    {
    }
}

/// Every record a line decodes to carries values within their machine
/// ranges, and every fold of such a record preserves well-formedness.
proof fn lemma_step_wf(m: PDBModel, line: Seq<char>)
    requires
        pdb_wf(m),
        step_spec(m, line) is Some,
    ensures
        pdb_wf(step_spec(m, line).unwrap()),
{
    let rec = decode_spec(line).unwrap();
    match rec {
        RecModel::Header(_t, _d, id) => {
            let p = prepare_spec(id).unwrap();
            crate::validator::lemma_prepared_normal(id);
        },
        RecModel::Remark(n, text) => {
            let m2 = step_spec(m, line).unwrap();
            assert(0 <= n <= 999);
            assert forall|i: int|
                0 <= i < m2.remarks.len() implies remark_type_allowed(
                (#[trigger] m2.remarks[i]).0,
            ) && m2.remarks[i].1.len() <= 70 && 0 <= m2.remarks[i].0 <= usize::MAX by {
                if i < m.remarks.len() {
                    assert(m2.remarks[i] == m.remarks[i]);
                }
            }
        },
        RecModel::Atom(a) => {
            // the decoded fields are in range
            assert(decode_atom_spec(line, a.hetero) == Some(RecModel::Atom(a)));
            lemma_parse_uint_nonneg(line.subrange(6, 11));
            lemma_parse_uint_nonneg(line.subrange(22, 26));
            lemma_parse_fixed_bounds(line.subrange(30, 38), 3);
            lemma_parse_fixed_bounds(line.subrange(38, 46), 3);
            lemma_parse_fixed_bounds(line.subrange(46, 54), 3);
            if line.len() >= 60 {
                lemma_parse_fixed_bounds(line.subrange(54, 60), 2);
            }
            if line.len() >= 66 {
                lemma_parse_fixed_bounds(line.subrange(60, 66), 2);
            }
            let na = atom_new_spec(
                a.hetero,
                a.serial_number,
                a.atom_name,
                a.res_name,
                a.chain_id,
                a.res_seq,
                a.x,
                a.y,
                a.z,
                a.occupancy,
                a.temp_factor,
                a.element,
                a.charge,
            ).unwrap();
            crate::validator::lemma_prepared_normal(a.atom_name);
            crate::validator::lemma_prepared_normal(a.res_name);
            crate::validator::lemma_prepared_normal(a.chain_id);
            crate::validator::lemma_prepared_normal(a.element);
            assert(atom_wf(na));
            let m2 = step_spec(m, line).unwrap();
            assert forall|i: int| 0 <= i < m2.atoms.len() implies atom_wf(
                #[trigger] m2.atoms[i],
            ) by {
                if i < m.atoms.len() {
                    assert(m2.atoms[i] == m.atoms[i]);
                }
            }
        },
        RecModel::Ter => {},
        RecModel::End => {},
        RecModel::Empty => {},
    }
}

/// Whatever a read yields is well formed.
proof fn lemma_read_from_wf(lines: Seq<Seq<char>>, i: int, acc: PDBModel, m: PDBModel)
    requires
        pdb_wf(acc),
        0 <= i,
        read_from_spec(lines, i, acc) == Ok::<PDBModel, int>(m),
    ensures
        pdb_wf(m),
    decreases lines.len() - i,
{
    if i < lines.len() {
        lemma_step_wf(acc, lines[i]);
        lemma_read_from_wf(lines, i + 1, step_spec(acc, lines[i]).unwrap(), m);
    }
}

/// Whatever a whole read yields is well formed.
pub proof fn lemma_read_spec_wf(lines: Seq<Seq<char>>, m: PDBModel)
    requires
        read_spec(lines) == Ok::<PDBModel, int>(m),
    ensures
        pdb_wf(m),
{
    lemma_read_from_wf(lines, 0, empty_model(), m);
}

/// Idempotence: re-serializing an already-read structure whose parts fit
/// their columns and re-reading it yields a structure equal to it, under the
/// container equality.
pub proof fn lemma_reread_idempotent(lines: Seq<Seq<char>>, m: PDBModel)
    requires
        read_spec(lines) == Ok::<PDBModel, int>(m),
        pdb_fits(m),
    ensures
        ({
            let again = encode_lines_spec(m, false);
            &&& read_spec(again) matches Ok(m2) && pdb_eq(m2, m)
        }),
{
    lemma_read_spec_wf(lines, m);
    lemma_write_read_round_trip(m);
}

/// A decimal numeral left-justified in its field still parses back, as long
/// as the field holds only the numeral and blanks.
proof fn lemma_uint_left_justified(n: nat, w: nat)
    requires
        n <= usize::MAX,
    ensures
        crate::num::parse_uint_spec(pad_right_spec(dec_digits(n), w)) == Some(n as int),
        crate::num::uint_in_range(pad_right_spec(dec_digits(n), w)),
{
    let dgs = dec_digits(n);
    lemma_dec_digits(n);
    crate::num::lemma_digits_no_space(dgs);
    crate::text::lemma_strip_no_space(dgs);
    if dgs.len() < w {
        let sp = spaces((w - dgs.len()) as nat);
        crate::text::lemma_strip_concat(dgs, sp);
        crate::text::lemma_strip_all_space(sp);
        assert(dgs + Seq::<char>::empty() =~= dgs);
    }
    assert(crate::text::strip_spaces(pad_right_spec(dgs, w)) == dgs);
    crate::num::lemma_digit_not_special(dgs[0]);
}

} // verus!
