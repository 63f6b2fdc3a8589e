//! The atom entity: validated field storage with accessors and mutators that
//! re-validate on every mutation.
//!
//! Coordinates are stored as signed integers in thousandths of the format's
//! unit, occupancy and temperature factor in hundredths: exactly the
//! precision the fixed-column fields carry. Every storable value is finite by
//! construction.

use vstd::prelude::*;

use crate::error::PDBError;
use crate::num::{abs_val, dec_digits, fixed_repr, fmt_fixed, fmt_usize};
use crate::text::{chars_of, normal_form, push_all, string_of, trim_spec, upper_spec};
use crate::validator::{lemma_prepared_normal, normalize_vec, valid_ident, valid_ident_vec};

verus! {

/// The mathematical view of an atom: integers and character sequences.
pub ghost struct AtomModel {
    pub hetero: bool,
    pub serial_number: int,
    pub atom_name: Seq<char>,
    pub alt_location: Option<Seq<char>>,
    pub res_name: Seq<char>,
    pub chain_id: Seq<char>,
    pub res_seq: int,
    pub i_code: Option<Seq<char>>,
    /// thousandths
    pub x: int,
    /// thousandths
    pub y: int,
    /// thousandths
    pub z: int,
    /// hundredths
    pub occupancy: int,
    /// hundredths
    pub temp_factor: int,
    pub segment_id: Option<Seq<char>>,
    pub element: Seq<char>,
    pub charge: int,
}

/// What every reachable atom satisfies: name and element are valid and
/// stored in normal form, the grouping fields are stored in normal form, the
/// optional codes are absent, and the numbers fit their machine types.
pub open spec fn atom_wf(m: AtomModel) -> bool {
    &&& valid_ident(m.atom_name)
    &&& normal_form(m.atom_name)
    &&& normal_form(m.res_name)
    &&& normal_form(m.chain_id)
    &&& valid_ident(m.element)
    &&& normal_form(m.element)
    &&& m.alt_location is None
    &&& m.i_code is None
    &&& m.segment_id is None
    &&& 0 <= m.serial_number <= usize::MAX
    &&& 0 <= m.res_seq <= usize::MAX
    &&& i64::MIN <= m.x <= i64::MAX
    &&& i64::MIN <= m.y <= i64::MAX
    &&& i64::MIN <= m.z <= i64::MAX
    &&& i64::MIN <= m.occupancy <= i64::MAX
    &&& i64::MIN <= m.temp_factor <= i64::MAX
    &&& isize::MIN <= m.charge <= isize::MAX
}

/// Two atoms are equal when serial number, name, element, residue name,
/// chain id, position, occupancy and temperature factor all match.
pub open spec fn atom_key_eq(a: AtomModel, b: AtomModel) -> bool {
    &&& a.serial_number == b.serial_number
    &&& a.atom_name == b.atom_name
    &&& a.element == b.element
    &&& a.res_name == b.res_name
    &&& a.chain_id == b.chain_id
    &&& a.x == b.x
    &&& a.y == b.y
    &&& a.z == b.z
    &&& a.occupancy == b.occupancy
    &&& a.temp_factor == b.temp_factor
}

/// What constructing an atom yields: nothing when the name or the element
/// has a disallowed character, otherwise the value with name, residue name,
/// chain id and element trimmed and upper-cased and the optional codes absent.
pub open spec fn atom_new_spec(
    hetero: bool,
    serial_number: int,
    atom_name: Seq<char>,
    res_name: Seq<char>,
    chain_id: Seq<char>,
    res_seq: int,
    x: int,
    y: int,
    z: int,
    occupancy: int,
    temp_factor: int,
    element: Seq<char>,
    charge: int,
) -> Option<AtomModel> {
    if valid_ident(atom_name) && valid_ident(element) {
        Some(
            AtomModel {
                hetero,
                serial_number,
                atom_name: upper_spec(trim_spec(atom_name)),
                alt_location: None,
                res_name: upper_spec(trim_spec(res_name)),
                chain_id: upper_spec(trim_spec(chain_id)),
                res_seq,
                i_code: None,
                x,
                y,
                z,
                occupancy,
                temp_factor,
                segment_id: None,
                element: upper_spec(trim_spec(element)),
                charge,
            },
        )
    } else {
        None
    }
}

/// The text an atom displays as: its fields, one per line, with the
/// coordinates at three decimals and the occupancy and temperature factor at
/// two.
pub open spec fn atom_text_spec(m: AtomModel) -> Seq<char> {
    "{\n\t'type' : '"@ + (if m.hetero {
        "HETATM"@
    } else {
        "ATOM"@
    }) + "',\n\t'number' : "@ + dec_digits(abs_val(m.serial_number)) + ",\n\t'element' : '"@
        + m.element + "',\n\t'residue' : '"@ + m.res_name + "',\n\t'chain' : '"@ + m.chain_id
        + "',\n\t'position' : ("@ + fixed_repr(m.x, 3) + ", "@ + fixed_repr(m.y, 3) + ", "@
        + fixed_repr(m.z, 3) + "),\n\t'occupancy' : "@ + fixed_repr(m.occupancy, 2)
        + ",\n\t'temp_factor' : "@ + fixed_repr(m.temp_factor, 2) + "\n}"@
}

/// One atom record of the model.
pub struct Atom {
    hetero: bool,
    serial_number: usize,
    atom_name: String,
    alt_location: Option<String>,
    res_name: String,
    chain_id: String,
    res_seq: usize,
    i_code: Option<String>,
    x: i64,
    y: i64,
    z: i64,
    occupancy: i64,
    temp_factor: i64,
    segment_id: Option<String>,
    element: String,
    charge: isize,
}

impl View for Atom {
    type V = AtomModel;

    closed spec fn view(&self) -> AtomModel {
        AtomModel {
            hetero: self.hetero,
            serial_number: self.serial_number as int,
            atom_name: self.atom_name@,
            alt_location: match self.alt_location {
                Some(s) => Some(s@),
                None => None,
            },
            res_name: self.res_name@,
            chain_id: self.chain_id@,
            res_seq: self.res_seq as int,
            i_code: match self.i_code {
                Some(s) => Some(s@),
                None => None,
            },
            x: self.x as int,
            y: self.y as int,
            z: self.z as int,
            occupancy: self.occupancy as int,
            temp_factor: self.temp_factor as int,
            segment_id: match self.segment_id {
                Some(s) => Some(s@),
                None => None,
            },
            element: self.element@,
            charge: self.charge as int,
        }
    }
}

impl Atom {
    /// Constructs a validated atom: nothing is returned when the name or the
    /// element has a disallowed character. Name, residue name, chain id and
    /// element are stored trimmed and upper-cased.
    pub fn new(
        hetero: bool,
        serial_number: usize,
        atom_name: &str,
        res_name: &str,
        chain_id: &str,
        res_seq: usize,
        x: i64,
        y: i64,
        z: i64,
        occupancy: i64,
        temp_factor: i64,
        element: &str,
        charge: isize,
    ) -> (r: Option<Atom>)
        ensures
            ({
                let spec = atom_new_spec(
                    hetero,
                    serial_number as int,
                    atom_name@,
                    res_name@,
                    chain_id@,
                    res_seq as int,
                    x as int,
                    y as int,
                    z as int,
                    occupancy as int,
                    temp_factor as int,
                    element@,
                    charge as int,
                );
                &&& (r is Some <==> spec is Some)
                &&& (r matches Some(a) ==> a@ == spec.unwrap() && atom_wf(a@))
            }),
    {
        let name_chars = chars_of(atom_name);
        let elem_chars = chars_of(element);
        if !valid_ident_vec(&name_chars) || !valid_ident_vec(&elem_chars) {
            return None;
        }
        let res_chars = chars_of(res_name);
        let chain_chars = chars_of(chain_id);
        let a = Atom {
            hetero,
            serial_number,
            atom_name: string_of(&normalize_vec(&name_chars)),
            alt_location: None,
            res_name: string_of(&normalize_vec(&res_chars)),
            chain_id: string_of(&normalize_vec(&chain_chars)),
            res_seq,
            i_code: None,
            x,
            y,
            z,
            occupancy,
            temp_factor,
            segment_id: None,
            element: string_of(&normalize_vec(&elem_chars)),
            charge,
        };
        proof {
            lemma_prepared_normal(atom_name@);
            lemma_prepared_normal(res_name@);
            lemma_prepared_normal(chain_id@);
            lemma_prepared_normal(element@);
        }
        Some(a)
    }

    /// Whether this is a hetero-atom record.
    pub fn hetero(&self) -> (r: bool)
        ensures
            r == self@.hetero,
    {
        self.hetero
    }

    /// Marks or unmarks this atom as a hetero-atom record.
    pub fn set_hetero(&mut self, hetero: bool)
        ensures
            final(self)@ == (AtomModel { hetero, ..old(self)@ }),
    {
        self.hetero = hetero;
    }

    /// The serial number.
    pub fn serial_number(&self) -> (r: usize)
        ensures
            r == self@.serial_number,
    {
        self.serial_number
    }

    /// Replaces the serial number.
    pub fn set_serial_number(&mut self, serial_number: usize)
        ensures
            final(self)@ == (AtomModel { serial_number: serial_number as int, ..old(self)@ }),
    {
        self.serial_number = serial_number;
    }

    /// The atom name, trimmed and upper-cased.
    pub fn atom_name(&self) -> (r: &String)
        ensures
            r@ == self@.atom_name,
    {
        &self.atom_name
    }

    /// The alternate-location code, when present.
    pub fn alt_location(&self) -> (r: Option<&str>)
        ensures
            r is Some <==> self@.alt_location is Some,
            r matches Some(s) ==> self@.alt_location == Some(s@),
    {
        match &self.alt_location {
            Some(s) => Some(s.as_str()),
            None => None,
        }
    }

    /// The insertion code, when present.
    pub fn i_code(&self) -> (r: Option<&str>)
        ensures
            r is Some <==> self@.i_code is Some,
            r matches Some(s) ==> self@.i_code == Some(s@),
    {
        match &self.i_code {
            Some(s) => Some(s.as_str()),
            None => None,
        }
    }

    /// The segment id, when present.
    pub fn segment_id(&self) -> (r: Option<&str>)
        ensures
            r is Some <==> self@.segment_id is Some,
            r matches Some(s) ==> self@.segment_id == Some(s@),
    {
        match &self.segment_id {
            Some(s) => Some(s.as_str()),
            None => None,
        }
    }

    /// Renames the atom; fails without mutating when the new name has a
    /// disallowed character.
    pub fn set_name(&mut self, new_name: &str) -> (r: Result<(), PDBError>)
        ensures
            r is Ok <==> valid_ident(new_name@),
            r is Ok ==> final(self)@ == (AtomModel {
                atom_name: upper_spec(trim_spec(new_name@)),
                ..old(self)@
            }),
            r is Err ==> *final(self) == *old(self) && r.unwrap_err() matches PDBError::InvalidValue(
                _,
            ),
            atom_wf(old(self)@) ==> atom_wf(final(self)@),
    {
        let v = chars_of(new_name);
        if valid_ident_vec(&v) {
            self.atom_name = string_of(&normalize_vec(&v));
            proof {
                lemma_prepared_normal(new_name@);
            }
            Ok(())
        } else {
            Err(PDBError::InvalidValue(String::from_str(new_name)))
        }
    }

    /// The residue name, trimmed and upper-cased.
    pub fn res_name(&self) -> (r: &String)
        ensures
            r@ == self@.res_name,
    {
        &self.res_name
    }

    /// Replaces the residue name; fails without mutating unless the new name
    /// is valid and exactly three characters long.
    pub fn set_residue_name(&mut self, new_res_name: &str) -> (r: Result<(), PDBError>)
        ensures
            r is Ok <==> valid_ident(new_res_name@) && new_res_name@.len() == 3,
            r is Ok ==> final(self)@ == (AtomModel {
                res_name: upper_spec(trim_spec(new_res_name@)),
                ..old(self)@
            }),
            r is Err ==> *final(self) == *old(self) && r.unwrap_err() matches PDBError::InvalidValue(
                _,
            ),
            atom_wf(old(self)@) ==> atom_wf(final(self)@),
    {
        let v = chars_of(new_res_name);
        if valid_ident_vec(&v) && v.len() == 3 {
            self.res_name = string_of(&normalize_vec(&v));
            proof {
                lemma_prepared_normal(new_res_name@);
            }
            Ok(())
        } else {
            Err(PDBError::InvalidValue(String::from_str(new_res_name)))
        }
    }

    /// The chain id, trimmed and upper-cased.
    pub fn chain_id(&self) -> (r: &String)
        ensures
            r@ == self@.chain_id,
    {
        &self.chain_id
    }

    /// Replaces the chain id; fails without mutating unless the new id is
    /// valid and exactly one character long.
    pub fn set_chain_id(&mut self, new_id: &str) -> (r: Result<(), PDBError>)
        ensures
            r is Ok <==> valid_ident(new_id@) && new_id@.len() == 1,
            r is Ok ==> final(self)@ == (AtomModel {
                chain_id: upper_spec(trim_spec(new_id@)),
                ..old(self)@
            }),
            r is Err ==> *final(self) == *old(self) && r.unwrap_err() matches PDBError::InvalidValue(
                _,
            ),
            atom_wf(old(self)@) ==> atom_wf(final(self)@),
    {
        let v = chars_of(new_id);
        if valid_ident_vec(&v) && v.len() == 1 {
            self.chain_id = string_of(&normalize_vec(&v));
            proof {
                lemma_prepared_normal(new_id@);
            }
            Ok(())
        } else {
            Err(PDBError::InvalidValue(String::from_str(new_id)))
        }
    }

    /// The residue sequence number.
    pub fn res_seq(&self) -> (r: usize)
        ensures
            r == self@.res_seq,
    {
        self.res_seq
    }

    /// The position, in thousandths.
    pub fn position(&self) -> (r: (i64, i64, i64))
        ensures
            r.0 == self@.x,
            r.1 == self@.y,
            r.2 == self@.z,
    {
        (self.x, self.y, self.z)
    }

    /// Replaces the position. Every storable coordinate is finite, so this
    /// always succeeds; the `Result` mirrors the mutator family.
    pub fn set_position(&mut self, new_position: (i64, i64, i64)) -> (r: Result<(), PDBError>)
        ensures
            r is Ok,
            final(self)@ == (AtomModel {
                x: new_position.0 as int,
                y: new_position.1 as int,
                z: new_position.2 as int,
                ..old(self)@
            }),
            atom_wf(old(self)@) ==> atom_wf(final(self)@),
    {
        self.x = new_position.0;
        self.y = new_position.1;
        self.z = new_position.2;
        Ok(())
    }

    /// The first coordinate, in thousandths.
    pub fn x(&self) -> (r: i64)
        ensures
            r == self@.x,
    {
        self.x
    }

    /// Replaces the first coordinate; always succeeds.
    pub fn set_x(&mut self, new_x: i64) -> (r: Result<(), PDBError>)
        ensures
            r is Ok,
            final(self)@ == (AtomModel { x: new_x as int, ..old(self)@ }),
            atom_wf(old(self)@) ==> atom_wf(final(self)@),
    {
        self.x = new_x;
        Ok(())
    }

    /// The second coordinate, in thousandths.
    pub fn y(&self) -> (r: i64)
        ensures
            r == self@.y,
    {
        self.y
    }

    /// Replaces the second coordinate; always succeeds.
    pub fn set_y(&mut self, new_y: i64) -> (r: Result<(), PDBError>)
        ensures
            r is Ok,
            final(self)@ == (AtomModel { y: new_y as int, ..old(self)@ }),
            atom_wf(old(self)@) ==> atom_wf(final(self)@),
    {
        self.y = new_y;
        Ok(())
    }

    /// The third coordinate, in thousandths.
    pub fn z(&self) -> (r: i64)
        ensures
            r == self@.z,
    {
        self.z
    }

    /// Replaces the third coordinate; always succeeds.
    pub fn set_z(&mut self, new_z: i64) -> (r: Result<(), PDBError>)
        ensures
            r is Ok,
            final(self)@ == (AtomModel { z: new_z as int, ..old(self)@ }),
            atom_wf(old(self)@) ==> atom_wf(final(self)@),
    {
        self.z = new_z;
        Ok(())
    }

    /// The occupancy, in hundredths.
    pub fn occupancy(&self) -> (r: i64)
        ensures
            r == self@.occupancy,
    {
        self.occupancy
    }

    /// Replaces the occupancy; always succeeds.
    pub fn set_occupancy(&mut self, new_occupancy: i64) -> (r: Result<(), PDBError>)
        ensures
            r is Ok,
            final(self)@ == (AtomModel { occupancy: new_occupancy as int, ..old(self)@ }),
            atom_wf(old(self)@) ==> atom_wf(final(self)@),
    {
        self.occupancy = new_occupancy;
        Ok(())
    }

    /// The temperature factor, in hundredths.
    pub fn temp_factor(&self) -> (r: i64)
        ensures
            r == self@.temp_factor,
    {
        self.temp_factor
    }

    /// Replaces the temperature factor; always succeeds.
    pub fn set_temp_factor(&mut self, new_temp_factor: i64) -> (r: Result<(), PDBError>)
        ensures
            r is Ok,
            final(self)@ == (AtomModel { temp_factor: new_temp_factor as int, ..old(self)@ }),
            atom_wf(old(self)@) ==> atom_wf(final(self)@),
    {
        self.temp_factor = new_temp_factor;
        Ok(())
    }

    /// The element, trimmed and upper-cased.
    pub fn element(&self) -> (r: &String)
        ensures
            r@ == self@.element,
    {
        &self.element
    }

    /// Replaces the element; fails without mutating when the new element has
    /// a disallowed character.
    pub fn set_element(&mut self, new_element: &str) -> (r: Result<(), PDBError>)
        ensures
            r is Ok <==> valid_ident(new_element@),
            r is Ok ==> final(self)@ == (AtomModel {
                element: upper_spec(trim_spec(new_element@)),
                ..old(self)@
            }),
            r is Err ==> *final(self) == *old(self) && r.unwrap_err() matches PDBError::InvalidValue(
                _,
            ),
            atom_wf(old(self)@) ==> atom_wf(final(self)@),
    {
        let v = chars_of(new_element);
        if valid_ident_vec(&v) {
            self.element = string_of(&normalize_vec(&v));
            proof {
                lemma_prepared_normal(new_element@);
            }
            Ok(())
        } else {
            Err(PDBError::InvalidValue(String::from_str(new_element)))
        }
    }

    /// The charge.
    pub fn charge(&self) -> (r: isize)
        ensures
            r == self@.charge,
    {
        self.charge
    }

    /// Replaces the charge.
    pub fn set_charge(&mut self, charge: isize)
        ensures
            final(self)@ == (AtomModel { charge: charge as int, ..old(self)@ }),
    {
        self.charge = charge;
    }
}

impl Atom {
    /// Renders the atom as readable text, one field per line.
    #[verifier::rlimit(100)]
    pub fn display_string(&self) -> (r: String)
        ensures
            r@ == atom_text_spec(self@),
    {
        let mut out: Vec<char> = Vec::new();
        push_all(&mut out, &chars_of("{\n\t'type' : '"));
        let tag = if self.hetero {
            "HETATM"
        } else {
            "ATOM"
        };
        push_all(&mut out, &chars_of(tag));
        push_all(&mut out, &chars_of("',\n\t'number' : "));
        push_all(&mut out, &fmt_usize(self.serial_number));
        push_all(&mut out, &chars_of(",\n\t'element' : '"));
        push_all(&mut out, &chars_of(self.element.as_str()));
        push_all(&mut out, &chars_of("',\n\t'residue' : '"));
        push_all(&mut out, &chars_of(self.res_name.as_str()));
        push_all(&mut out, &chars_of("',\n\t'chain' : '"));
        push_all(&mut out, &chars_of(self.chain_id.as_str()));
        push_all(&mut out, &chars_of("',\n\t'position' : ("));
        push_all(&mut out, &fmt_fixed(self.x, 3));
        push_all(&mut out, &chars_of(", "));
        push_all(&mut out, &fmt_fixed(self.y, 3));
        push_all(&mut out, &chars_of(", "));
        push_all(&mut out, &fmt_fixed(self.z, 3));
        push_all(&mut out, &chars_of("),\n\t'occupancy' : "));
        push_all(&mut out, &fmt_fixed(self.occupancy, 2));
        push_all(&mut out, &chars_of(",\n\t'temp_factor' : "));
        push_all(&mut out, &fmt_fixed(self.temp_factor, 2));
        push_all(&mut out, &chars_of("\n}"));
        proof {
            assert(out@ =~= atom_text_spec(self@));
        }
        string_of(&out)
    }
}

impl Clone for Atom {
    /// A plain value copy: validity was established at construction.
    fn clone(&self) -> (r: Self)
        ensures
            r@ == self@,
    {
        Atom {
            hetero: self.hetero,
            serial_number: self.serial_number,
            atom_name: self.atom_name.clone(),
            alt_location: match &self.alt_location {
                Some(s) => Some(s.clone()),
                None => None,
            },
            res_name: self.res_name.clone(),
            chain_id: self.chain_id.clone(),
            res_seq: self.res_seq,
            i_code: match &self.i_code {
                Some(s) => Some(s.clone()),
                None => None,
            },
            x: self.x,
            y: self.y,
            z: self.z,
            occupancy: self.occupancy,
            temp_factor: self.temp_factor,
            segment_id: match &self.segment_id {
                Some(s) => Some(s.clone()),
                None => None,
            },
            element: self.element.clone(),
            charge: self.charge,
        }
    }
}

impl PartialEq for Atom {
    fn eq(&self, other: &Atom) -> (r: bool) {
        self.serial_number == other.serial_number && self.atom_name == other.atom_name
            && self.element == other.element && self.res_name == other.res_name && self.chain_id
            == other.chain_id && self.x == other.x && self.y == other.y && self.z == other.z
            && self.occupancy == other.occupancy && self.temp_factor == other.temp_factor
    }
}

impl vstd::std_specs::cmp::PartialEqSpecImpl for Atom {
    open spec fn obeys_eq_spec() -> bool {
        true
    }

    open spec fn eq_spec(&self, other: &Atom) -> bool {
        atom_key_eq(self@, other@)
    }
}

impl Eq for Atom {

}

impl PartialOrd for Atom {
    /// Atoms order by serial number alone.
    fn partial_cmp(&self, other: &Atom) -> (r: Option<core::cmp::Ordering>) {
        if self.serial_number < other.serial_number {
            Some(core::cmp::Ordering::Less)
        } else if self.serial_number == other.serial_number {
            Some(core::cmp::Ordering::Equal)
        } else {
            Some(core::cmp::Ordering::Greater)
        }
    }
}

impl vstd::std_specs::cmp::PartialOrdSpecImpl for Atom {
    open spec fn obeys_partial_cmp_spec() -> bool {
        true
    }

    open spec fn partial_cmp_spec(&self, other: &Atom) -> Option<core::cmp::Ordering> {
        if self@.serial_number < other@.serial_number {
            Some(core::cmp::Ordering::Less)
        } else if self@.serial_number == other@.serial_number {
            Some(core::cmp::Ordering::Equal)
        } else {
            Some(core::cmp::Ordering::Greater)
        }
    }
}

} // verus!
