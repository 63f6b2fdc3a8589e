//! The standalone residue grouping entity: a validated name, a serial
//! number, and the atoms it owns.

use vstd::prelude::*;

use crate::atom::{atom_key_eq, atom_wf, Atom, AtomModel};
use crate::text::{chars_of, normal_form, string_of};
use crate::validator::{
    lemma_prepared_normal, normalize_vec, prepare_spec, trimmed_nonempty_vec, valid_ident,
    valid_ident_vec,
};

verus! {

/// The mathematical view of a residue.
pub ghost struct ResidueModel {
    pub name: Seq<char>,
    pub serial_number: int,
    pub atoms: Seq<AtomModel>,
}

/// What every reachable residue satisfies.
pub open spec fn residue_wf(m: ResidueModel) -> bool {
    &&& valid_ident(m.name)
    &&& normal_form(m.name)
    &&& m.name.len() > 0
    &&& 0 <= m.serial_number <= usize::MAX
    &&& (forall|i: int| 0 <= i < m.atoms.len() ==> atom_wf(#[trigger] m.atoms[i]))
}

/// A residue: a named group of atoms.
pub struct Residue {
    name: String,
    serial_number: usize,
    atoms: Vec<Atom>,
}

impl View for Residue {
    type V = ResidueModel;

    closed spec fn view(&self) -> ResidueModel {
        ResidueModel {
            name: self.name@,
            serial_number: self.serial_number as int,
            atoms: self.atoms@.map_values(|a: Atom| a@),
        }
    }
}

impl Residue {
    /// Constructs a residue with a validated, non-blank name, holding the
    /// given atom if one is offered.
    pub fn new(name: &str, serial_number: usize, atom: Option<Atom>) -> (r: Option<Residue>)
        ensures
            r is Some <==> prepare_spec(name@) is Some,
            r matches Some(res) ==> res@.name == prepare_spec(name@).unwrap()
                && res@.serial_number == serial_number && (match atom {
                Some(a) => res@.atoms =~= seq![a@],
                None => res@.atoms =~= Seq::<AtomModel>::empty(),
            }),
    {
        let v = chars_of(name);
        if !valid_ident_vec(&v) {
            return None;
        }
        if !trimmed_nonempty_vec(&v) {
            return None;
        }
        let mut atoms: Vec<Atom> = Vec::new();
        if let Some(a) = atom {
            atoms.push(a);
        }
        let res = Residue { name: string_of(&normalize_vec(&v)), serial_number, atoms };
        proof {
            lemma_prepared_normal(name@);
        }
        Some(res)
    }

    /// The residue name, trimmed and upper-cased.
    pub fn name(&self) -> (r: &str)
        ensures
            r@ == self@.name,
    {
        self.name.as_str()
    }

    /// Renames the residue; fails without mutating unless the new name is
    /// valid and non-blank. The error carries the rejected value.
    pub fn set_name(&mut self, new_name: &str) -> (r: Result<(), String>)
        ensures
            r is Ok <==> prepare_spec(new_name@) is Some,
            r is Ok ==> final(self)@ == (ResidueModel {
                name: prepare_spec(new_name@).unwrap(),
                ..old(self)@
            }),
            r is Err ==> *final(self) == *old(self),
            residue_wf(old(self)@) ==> residue_wf(final(self)@),
    {
        let v = chars_of(new_name);
        if !valid_ident_vec(&v) {
            return Err(String::from_str(new_name));
        }
        if !trimmed_nonempty_vec(&v) {
            return Err(String::from_str(new_name));
        }
        self.name = string_of(&normalize_vec(&v));
        proof {
            lemma_prepared_normal(new_name@);
        }
        Ok(())
    }

    /// The serial number.
    pub fn serial_number(&self) -> (r: usize)
        ensures
            r == self@.serial_number,
    {
        self.serial_number
    }

    /// Replaces the serial number.
    pub fn set_serial_number(&mut self, new_number: usize)
        ensures
            final(self)@ == (ResidueModel { serial_number: new_number as int, ..old(self)@ }),
    {
        self.serial_number = new_number;
    }

    /// The atom at `index`, when there is one.
    pub fn atom(&self, index: usize) -> (r: Option<&Atom>)
        ensures
            r is Some <==> index < self@.atoms.len(),
            r matches Some(a) ==> a@ == self@.atoms[index as int],
    {
        if index < self.atoms.len() {
            Some(&self.atoms[index])
        } else {
            None
        }
    }

    /// The atoms, in insertion order.
    pub fn atoms(&self) -> (r: &Vec<Atom>)
        ensures
            r@.len() == self@.atoms.len(),
            forall|i: int| 0 <= i < r@.len() ==> (#[trigger] r@[i])@ == self@.atoms[i],
    {
        &self.atoms
    }

    /// Appends an atom.
    pub fn add_atom(&mut self, new_atom: Atom)
        ensures
            final(self)@ == (ResidueModel { atoms: old(self)@.atoms.push(new_atom@), ..old(self)@ }),
            residue_wf(old(self)@) && atom_wf(new_atom@) ==> residue_wf(final(self)@),
    {
        self.atoms.push(new_atom);
        proof {
            assert(final(self)@.atoms =~= old(self)@.atoms.push(new_atom@));
        }
    }
}

impl Clone for Residue {
    /// A plain value copy.
    #[verifier::loop_isolation(false)]
    fn clone(&self) -> (r: Self)
        ensures
            r@ == self@,
    {
        let mut atoms: Vec<Atom> = Vec::new();
        let mut i: usize = 0;
        while i < self.atoms.len()
            invariant
                i <= self.atoms@.len(),
                atoms@.len() == i,
                forall|k: int| 0 <= k < i ==> (#[trigger] atoms@[k])@ == self.atoms@[k]@,
            decreases self.atoms@.len() - i,
        {
            atoms.push(self.atoms[i].clone());
            i = i + 1;
        }
        let r = Residue { name: self.name.clone(), serial_number: self.serial_number, atoms };
        proof {
            assert(r@.atoms =~= self@.atoms);
        }
        r
    }
}

impl PartialEq for Residue {
    /// Residues compare by name, serial number, and their atoms under the
    /// atom equality.
    #[verifier::loop_isolation(false)]
    fn eq(&self, other: &Residue) -> (r: bool) {
        if !(self.name == other.name) || self.serial_number != other.serial_number {
            return false;
        }
        if self.atoms.len() != other.atoms.len() {
            proof {
                assert(self@.atoms.len() != other@.atoms.len());
            }
            return false;
        }
        let mut i: usize = 0;
        while i < self.atoms.len()
            invariant
                i <= self.atoms@.len(),
                self.atoms@.len() == other.atoms@.len(),
                forall|k: int| 0 <= k < i ==> atom_key_eq(self@.atoms[k], other@.atoms[k]),
            decreases self.atoms@.len() - i,
        {
            if !(self.atoms[i] == other.atoms[i]) {
                proof {
                    assert(!atom_key_eq(self@.atoms[i as int], other@.atoms[i as int]));
                }
                return false;
            }
            i = i + 1;
        }
        true
    }
}

impl vstd::std_specs::cmp::PartialEqSpecImpl for Residue {
    open spec fn obeys_eq_spec() -> bool {
        true
    }

    open spec fn eq_spec(&self, other: &Residue) -> bool {
        &&& self@.name == other@.name
        &&& self@.serial_number == other@.serial_number
        &&& self@.atoms.len() == other@.atoms.len()
        &&& (forall|i: int|
            0 <= i < self@.atoms.len() ==> atom_key_eq(#[trigger] self@.atoms[i], other@.atoms[i]))
    }
}

impl PartialOrd for Residue {
    /// Residues order by serial number alone.
    fn partial_cmp(&self, other: &Residue) -> (r: Option<core::cmp::Ordering>) {
        if self.serial_number < other.serial_number {
            Some(core::cmp::Ordering::Less)
        } else if self.serial_number == other.serial_number {
            Some(core::cmp::Ordering::Equal)
        } else {
            Some(core::cmp::Ordering::Greater)
        }
    }
}

impl vstd::std_specs::cmp::PartialOrdSpecImpl for Residue {
    open spec fn obeys_partial_cmp_spec() -> bool {
        true
    }

    open spec fn partial_cmp_spec(&self, other: &Residue) -> Option<core::cmp::Ordering> {
        if self@.serial_number < other@.serial_number {
            Some(core::cmp::Ordering::Less)
        } else if self@.serial_number == other@.serial_number {
            Some(core::cmp::Ordering::Equal)
        } else {
            Some(core::cmp::Ordering::Greater)
        }
    }
}

} // verus!
