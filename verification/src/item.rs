//! The typed, intermediate record a decoded line becomes: a tagged union
//! with an explicit ignorable variant.

use vstd::prelude::*;

use crate::atom::AtomModel;

verus! {

/// The mathematical view of a decoded record.
pub ghost enum RecModel {
    /// Title-like field, date-like field, identifier.
    Header(Seq<char>, Seq<char>, Seq<char>),
    /// Remark-type code and right-trimmed remark text.
    Remark(int, Seq<char>),
    /// The raw fields of an atom or hetero-atom record, untrimmed.
    Atom(AtomModel),
    /// A chain terminator; carries no fields.
    Ter,
    /// An end marker; carries no fields.
    End,
    /// Anything else; carries no fields.
    Empty,
}

/// The raw fields decoded from one atom or hetero-atom record, before entity
/// validation. Coordinates are in thousandths, occupancy and temperature
/// factor in hundredths.
pub struct AtomRecord {
    pub hetero: bool,
    pub serial_number: usize,
    pub atom_name: String,
    pub alt_location: Option<String>,
    pub res_name: String,
    pub chain_id: String,
    pub res_seq: usize,
    pub i_code: Option<String>,
    pub x: i64,
    pub y: i64,
    pub z: i64,
    pub occupancy: i64,
    pub temp_factor: i64,
    pub segment_id: Option<String>,
    pub element: String,
    pub charge: isize,
}

impl View for AtomRecord {
    type V = AtomModel;

    open spec fn view(&self) -> AtomModel {
        AtomModel {
            hetero: self.hetero,
            serial_number: self.serial_number as int,
            atom_name: self.atom_name@,
            alt_location: match self.alt_location {
                Some(s) => Some(s@),
                None => None,
            },
            res_name: self.res_name@,
            chain_id: self.chain_id@,
            res_seq: self.res_seq as int,
            i_code: match self.i_code {
                Some(s) => Some(s@),
                None => None,
            },
            x: self.x as int,
            y: self.y as int,
            z: self.z as int,
            occupancy: self.occupancy as int,
            temp_factor: self.temp_factor as int,
            segment_id: match self.segment_id {
                Some(s) => Some(s@),
                None => None,
            },
            element: self.element@,
            charge: self.charge as int,
        }
    }
}

/// One decoded record.
pub enum ParsedItems {
    /// Title-like field, date-like field, identifier.
    Header(String, String, String),
    /// Remark-type code and right-trimmed remark text.
    Remark(usize, String),
    /// An atom or hetero-atom record.
    Atom(AtomRecord),
    /// A chain terminator.
    Ter,
    /// An end marker.
    End,
    /// Anything else: the line is ignored.
    Empty,
}

impl View for ParsedItems {
    type V = RecModel;

    open spec fn view(&self) -> RecModel {
        match self {
            ParsedItems::Header(a, b, c) => RecModel::Header(a@, b@, c@),
            ParsedItems::Remark(n, t) => RecModel::Remark(*n as int, t@),
            ParsedItems::Atom(a) => RecModel::Atom(a@),
            ParsedItems::Ter => RecModel::Ter,
            ParsedItems::End => RecModel::End,
            ParsedItems::Empty => RecModel::Empty,
        }
    }
}

} // verus!
