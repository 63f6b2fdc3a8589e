//! The top-level container: an optional identifier, ordered remarks, ordered
//! atoms. Mutated only through append-style operations that validate what
//! they are given.

use vstd::prelude::*;

use crate::atom::{atom_key_eq, atom_wf, Atom, AtomModel};
use crate::error::PDBError;
use crate::text::{chars_of, normal_form, string_of};
use crate::validator::{
    lemma_prepared_normal, normalize_vec, prepare_spec, trimmed_nonempty_vec, valid_ident,
    valid_ident_vec,
};

verus! {

/// The mathematical view of the container.
pub ghost struct PDBModel {
    pub identifier: Option<Seq<char>>,
    pub remarks: Seq<(int, Seq<char>)>,
    pub atoms: Seq<AtomModel>,
}

/// The 42 registered remark-type codes.
pub open spec fn remark_type_allowed(n: int) -> bool {
    ||| n == 0
    ||| n == 1
    ||| n == 2
    ||| n == 3
    ||| n == 4
    ||| n == 5
    ||| n == 100
    ||| n == 200
    ||| n == 205
    ||| n == 210
    ||| n == 215
    ||| n == 217
    ||| n == 230
    ||| n == 240
    ||| n == 245
    ||| n == 247
    ||| n == 250
    ||| n == 265
    ||| n == 280
    ||| n == 285
    ||| n == 290
    ||| n == 300
    ||| n == 350
    ||| n == 375
    ||| n == 400
    ||| n == 450
    ||| n == 465
    ||| n == 470
    ||| n == 475
    ||| n == 480
    ||| n == 500
    ||| n == 525
    ||| n == 600
    ||| n == 610
    ||| n == 615
    ||| n == 620
    ||| n == 630
    ||| n == 650
    ||| n == 700
    ||| n == 800
    ||| n == 900
    ||| n == 999
}

/// What every reachable container satisfies: the identifier, if set, is
/// valid, non-blank and stored in normal form; every remark type is
/// registered and every remark text is at most 70 characters; every atom is
/// well formed.
pub open spec fn pdb_wf(m: PDBModel) -> bool {
    &&& (m.identifier matches Some(id) ==> valid_ident(id) && normal_form(id) && id.len() > 0)
    &&& (forall|i: int|
        0 <= i < m.remarks.len() ==> remark_type_allowed((#[trigger] m.remarks[i]).0)
            && m.remarks[i].1.len() <= 70 && 0 <= m.remarks[i].0 <= usize::MAX)
    &&& (forall|i: int| 0 <= i < m.atoms.len() ==> atom_wf(#[trigger] m.atoms[i]))
}

/// The container equality: identifier and remarks match, and the atoms match
/// pairwise by the atom equality.
pub open spec fn pdb_eq(a: PDBModel, b: PDBModel) -> bool {
    &&& a.identifier == b.identifier
    &&& a.remarks == b.remarks
    &&& a.atoms.len() == b.atoms.len()
    &&& (forall|i: int| 0 <= i < a.atoms.len() ==> atom_key_eq(#[trigger] a.atoms[i], b.atoms[i]))
}

/// The top-level structure.
pub struct PDB {
    identifier: Option<String>,
    remarks: Vec<(usize, String)>,
    atoms: Vec<Atom>,
}

impl View for PDB {
    type V = PDBModel;

    closed spec fn view(&self) -> PDBModel {
        PDBModel {
            identifier: match self.identifier {
                Some(s) => Some(s@),
                None => None,
            },
            remarks: self.remarks@.map_values(|t: (usize, String)| (t.0 as int, t.1@)),
            atoms: self.atoms@.map_values(|a: Atom| a@),
        }
    }
}

impl PDB {
    /// An empty structure: no identifier, no remarks, no atoms.
    pub fn new() -> (r: PDB)
        ensures
            r@.identifier is None,
            r@.remarks == Seq::<(int, Seq<char>)>::empty(),
            r@.atoms == Seq::<AtomModel>::empty(),
            pdb_wf(r@),
    {
        let r = PDB { identifier: None, remarks: Vec::new(), atoms: Vec::new() };
        proof {
            assert(r@.remarks =~= Seq::<(int, Seq<char>)>::empty());
            assert(r@.atoms =~= Seq::<AtomModel>::empty());
        }
        r
    }

    /// The identifier, when one is set.
    pub fn identifier(&self) -> (r: Option<&String>)
        ensures
            r is Some <==> self@.identifier is Some,
            r matches Some(s) ==> self@.identifier == Some(s@),
    {
        self.identifier.as_ref()
    }

    /// Sets the identifier; fails without mutating unless the new name is
    /// valid and non-blank. The stored form is trimmed and upper-cased.
    pub fn set_identifier(&mut self, new_name: &str) -> (r: Result<(), PDBError>)
        ensures
            r is Ok <==> prepare_spec(new_name@) is Some,
            r is Ok ==> final(self)@ == (PDBModel {
                identifier: Some(prepare_spec(new_name@).unwrap()),
                ..old(self)@
            }),
            r is Err ==> *final(self) == *old(self) && r.unwrap_err()
                matches PDBError::InvalidValue(_),
            pdb_wf(old(self)@) ==> pdb_wf(final(self)@),
    {
        let v = chars_of(new_name);
        if !valid_ident_vec(&v) {
            return Err(PDBError::InvalidValue(String::from_str(new_name)));
        }
        if !trimmed_nonempty_vec(&v) {
            return Err(PDBError::InvalidValue(String::from_str(new_name)));
        }
        self.identifier = Some(string_of(&normalize_vec(&v)));
        proof {
            lemma_prepared_normal(new_name@);
        }
        Ok(())
    }

    /// The remarks, in insertion order.
    pub fn remarks(&self) -> (r: &Vec<(usize, String)>)
        ensures
            r@.len() == self@.remarks.len(),
            forall|i: int|
                0 <= i < r@.len() ==> ((#[trigger] r@[i]).0 as int, r@[i].1@) == self@.remarks[i],
    {
        &self.remarks
    }

    /// Appends a remark; fails without mutating when the type code is not
    /// registered or the text is longer than 70 characters.
    pub fn add_remarks(&mut self, remark_type: usize, remark_text: &str) -> (r: Result<
        (),
        PDBError,
    >)
        ensures
            r is Ok <==> remark_type_allowed(remark_type as int) && remark_text@.len() <= 70,
            r is Ok ==> final(self)@ == (PDBModel {
                remarks: old(self)@.remarks.push((remark_type as int, remark_text@)),
                ..old(self)@
            }),
            r is Err ==> *final(self) == *old(self) && r.unwrap_err()
                matches PDBError::InvalidValue(_),
            pdb_wf(old(self)@) ==> pdb_wf(final(self)@),
    {
        if !is_remark_type(remark_type) {
            return Err(PDBError::InvalidValue(String::from_str(remark_text)));
        }
        let v = chars_of(remark_text);
        if v.len() > 70 {
            return Err(PDBError::InvalidValue(String::from_str(remark_text)));
        }
        self.remarks.push((remark_type, String::from_str(remark_text)));
        proof {
            assert(final(self)@.remarks =~= old(self)@.remarks.push(
                (remark_type as int, remark_text@),
            ));
            assert(final(self)@.atoms =~= old(self)@.atoms);
        }
        Ok(())
    }

    /// The atoms, in insertion order.
    pub fn atoms(&self) -> (r: &Vec<Atom>)
        ensures
            r@.len() == self@.atoms.len(),
            forall|i: int| 0 <= i < r@.len() ==> (#[trigger] r@[i])@ == self@.atoms[i],
    {
        &self.atoms
    }

    /// Appends an atom; read order determines atom order.
    pub fn add_atom(&mut self, new_atom: Atom)
        ensures
            final(self)@ == (PDBModel { atoms: old(self)@.atoms.push(new_atom@), ..old(self)@ }),
            pdb_wf(old(self)@) && atom_wf(new_atom@) ==> pdb_wf(final(self)@),
    {
        self.atoms.push(new_atom);
        proof {
            assert(final(self)@.atoms =~= old(self)@.atoms.push(new_atom@));
            assert(final(self)@.remarks =~= old(self)@.remarks);
        }
    }
}

/// Whether `n` is one of the 42 registered remark-type codes, decided
/// executably.
pub fn is_remark_type(n: usize) -> (r: bool)
    ensures
        r == remark_type_allowed(n as int),
{
    n == 0 || n == 1 || n == 2 || n == 3 || n == 4 || n == 5 || n == 100 || n == 200 || n == 205
        || n == 210 || n == 215 || n == 217 || n == 230 || n == 240 || n == 245 || n == 247 || n
        == 250 || n == 265 || n == 280 || n == 285 || n == 290 || n == 300 || n == 350 || n == 375
        || n == 400 || n == 450 || n == 465 || n == 470 || n == 475 || n == 480 || n == 500 || n
        == 525 || n == 600 || n == 610 || n == 615 || n == 620 || n == 630 || n == 650 || n == 700
        || n == 800 || n == 900 || n == 999
}

impl Clone for PDB {
    /// A plain value copy.
    #[verifier::loop_isolation(false)]
    fn clone(&self) -> (r: Self)
        ensures
            r@ == self@,
    {
        let identifier = match &self.identifier {
            Some(s) => Some(s.clone()),
            None => None,
        };
        let mut remarks: Vec<(usize, String)> = Vec::new();
        let mut i: usize = 0;
        while i < self.remarks.len()
            invariant
                i <= self.remarks@.len(),
                remarks@.len() == i,
                forall|k: int| 0 <= k < i ==> remarks@[k] == self.remarks@[k],
            decreases self.remarks@.len() - i,
        {
            let (t, s) = (self.remarks[i].0, self.remarks[i].1.clone());
            remarks.push((t, s));
            i = i + 1;
        }
        let mut atoms: Vec<Atom> = Vec::new();
        let mut j: usize = 0;
        while j < self.atoms.len()
            invariant
                j <= self.atoms@.len(),
                atoms@.len() == j,
                forall|k: int| 0 <= k < j ==> (#[trigger] atoms@[k])@ == self.atoms@[k]@,
            decreases self.atoms@.len() - j,
        {
            atoms.push(self.atoms[j].clone());
            j = j + 1;
        }
        let r = PDB { identifier, remarks, atoms };
        proof {
            assert(r@.remarks =~= self@.remarks);
            assert(r@.atoms =~= self@.atoms);
        }
        r
    }
}

impl PartialEq for PDB {
    /// Structures compare by identifier, remarks, and atoms under the atom
    /// equality.
    #[verifier::loop_isolation(false)]
    fn eq(&self, other: &PDB) -> (r: bool) {
        let id_eq = match (&self.identifier, &other.identifier) {
            (Some(a), Some(b)) => *a == *b,
            (None, None) => true,
            _ => false,
        };
        if !id_eq {
            return false;
        }
        if self.remarks.len() != other.remarks.len() {
            proof {
                assert(self@.remarks.len() != other@.remarks.len());
            }
            return false;
        }
        let mut i: usize = 0;
        while i < self.remarks.len()
            invariant
                i <= self.remarks@.len(),
                self.remarks@.len() == other.remarks@.len(),
                forall|k: int| 0 <= k < i ==> self@.remarks[k] == other@.remarks[k],
            decreases self.remarks@.len() - i,
        {
            if self.remarks[i].0 != other.remarks[i].0 || !(self.remarks[i].1
                == other.remarks[i].1) {
                proof {
                    assert(self@.remarks[i as int] != other@.remarks[i as int]);
                }
                return false;
            }
            i = i + 1;
        }
        proof {
            assert(self@.remarks =~= other@.remarks);
        }
        if self.atoms.len() != other.atoms.len() {
            proof {
                assert(self@.atoms.len() != other@.atoms.len());
            }
            return false;
        }
        let mut j: usize = 0;
        while j < self.atoms.len()
            invariant
                j <= self.atoms@.len(),
                self.atoms@.len() == other.atoms@.len(),
                forall|k: int| 0 <= k < j ==> atom_key_eq(self@.atoms[k], other@.atoms[k]),
            decreases self.atoms@.len() - j,
        {
            if !(self.atoms[j] == other.atoms[j]) {
                proof {
                    assert(!atom_key_eq(self@.atoms[j as int], other@.atoms[j as int]));
                }
                return false;
            }
            j = j + 1;
        }
        true
    }
}

impl vstd::std_specs::cmp::PartialEqSpecImpl for PDB {
    open spec fn obeys_eq_spec() -> bool {
        true
    }

    open spec fn eq_spec(&self, other: &PDB) -> bool {
        pdb_eq(self@, other@)
    }
}

} // verus!
