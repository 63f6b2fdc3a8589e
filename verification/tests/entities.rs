use pdbio::atom::Atom;
use pdbio::num::{parse_fixed, parse_usize};
use pdbio::pdb::PDB;
use pdbio::residue::Residue;
use pdbio::validator::{check_char, prepare_identifier, valid_identifier};
use pdbio::error::PDBError;

#[test]
fn it_works() {
    assert_eq!(2 + 2, 4);
}

#[test]
fn can_parse_usize() {
    let chara: Vec<char> = "1234".chars().collect();
    assert_eq!(1234 as usize, parse_usize(&chara, 1).unwrap());
}

#[test]
fn can_parse_f64() {
    // 54.572 in thousandths
    let chara: Vec<char> = "54.572".chars().collect();
    assert_eq!(54572 as i64, parse_fixed(&chara, 3, 1).unwrap());
}

#[test]
fn parse_usize_strips_blanks_and_rejects_junk() {
    let ok: Vec<char> = "  12 34 ".chars().collect();
    assert_eq!(1234 as usize, parse_usize(&ok, 1).unwrap());
    let bad: Vec<char> = "12x4".chars().collect();
    match parse_usize(&bad, 7) {
        Err(PDBError::ParseError(line, _)) => assert_eq!(line, 7),
        _ => panic!("junk digits must be rejected with the line number"),
    }
    let empty: Vec<char> = "    ".chars().collect();
    assert!(parse_usize(&empty, 2).is_err());
}

#[test]
fn parse_fixed_exact_values() {
    let neg: Vec<char> = "  -0.5".chars().collect();
    assert_eq!(-50 as i64, parse_fixed(&neg, 2, 1).unwrap());
    let int_only: Vec<char> = "  54  ".chars().collect();
    assert_eq!(5400 as i64, parse_fixed(&int_only, 2, 1).unwrap());
    let trailing_dot: Vec<char> = "3.".chars().collect();
    assert_eq!(3000 as i64, parse_fixed(&trailing_dot, 3, 1).unwrap());
    let leading_dot: Vec<char> = ".25".chars().collect();
    assert_eq!(250 as i64, parse_fixed(&leading_dot, 3, 1).unwrap());
    let two_dots: Vec<char> = "1.2.3".chars().collect();
    assert!(parse_fixed(&two_dots, 3, 1).is_err());
}

#[test]
fn check_char_bounds() {
    assert!(check_char(' '));
    assert!(check_char('A'));
    assert!(check_char('~'));
    assert!(!check_char('\u{1f}'));
    assert!(!check_char('\u{7f}'));
    assert!(!check_char('\n'));
}

#[test]
fn invalid_characters_rejected_everywhere() {
    let bad = "AB\u{1}C";
    assert!(!valid_identifier(bad));
    assert!(prepare_identifier(bad).is_none());
    assert!(Atom::new(false, 1, bad, "ALA", "A", 1, 0, 0, 0, 100, 0, "N", 0).is_none());
    assert!(Atom::new(false, 1, "N", "ALA", "A", 1, 0, 0, 0, 100, 0, bad, 0).is_none());
    let mut atom = Atom::new(false, 1, "N", "ALA", "A", 1, 0, 0, 0, 100, 0, "N", 0).unwrap();
    assert!(atom.set_name(bad).is_err());
    assert!(atom.set_element(bad).is_err());
    let mut pdb = PDB::new();
    assert!(pdb.set_identifier(bad).is_err());
    assert!(Residue::new(bad, 1, None).is_none());
}

#[test]
fn prepare_identifier_normalizes() {
    assert_eq!(prepare_identifier("  abc1 ").unwrap(), "ABC1");
    assert!(prepare_identifier("   ").is_none());
    assert!(prepare_identifier("").is_none());
}

#[test]
fn atom_construction_normalizes_fields() {
    let atom = Atom::new(true, 7, " ca ", " gly", "a", 22, 1500, -2500, 0, 100, 50, " c", -1)
        .unwrap();
    assert!(atom.hetero());
    assert_eq!(atom.serial_number(), 7);
    assert_eq!(atom.atom_name(), "CA");
    assert_eq!(atom.res_name(), "GLY");
    assert_eq!(atom.chain_id(), "A");
    assert_eq!(atom.res_seq(), 22);
    assert_eq!(atom.position(), (1500, -2500, 0));
    assert_eq!(atom.occupancy(), 100);
    assert_eq!(atom.temp_factor(), 50);
    assert_eq!(atom.element(), "C");
    assert_eq!(atom.charge(), -1);
    assert!(atom.alt_location().is_none());
    assert!(atom.i_code().is_none());
    assert!(atom.segment_id().is_none());
}

#[test]
fn atom_setters_validate() {
    let mut atom = Atom::new(false, 1, "N", "ALA", "A", 1, 0, 0, 0, 100, 0, "N", 0).unwrap();
    assert!(atom.set_residue_name("gly").is_ok());
    assert_eq!(atom.res_name(), "GLY");
    assert!(atom.set_residue_name("GL").is_err());
    assert!(atom.set_chain_id("b").is_ok());
    assert_eq!(atom.chain_id(), "B");
    assert!(atom.set_chain_id("BB").is_err());
    assert!(atom.set_position((1, 2, 3)).is_ok());
    assert_eq!(atom.position(), (1, 2, 3));
    assert!(atom.set_x(-7).is_ok());
    assert!(atom.set_y(8).is_ok());
    assert!(atom.set_z(9).is_ok());
    assert_eq!(atom.position(), (-7, 8, 9));
    assert!(atom.set_occupancy(55).is_ok());
    assert_eq!(atom.occupancy(), 55);
    assert!(atom.set_temp_factor(66).is_ok());
    assert_eq!(atom.temp_factor(), 66);
    atom.set_serial_number(9);
    assert_eq!(atom.serial_number(), 9);
    atom.set_hetero(true);
    assert!(atom.hetero());
    atom.set_charge(3);
    assert_eq!(atom.charge(), 3);
}

#[test]
fn atom_equality_and_order() {
    let a = Atom::new(false, 1, "N", "ALA", "A", 1, 10, 20, 30, 100, 0, "N", 0).unwrap();
    let b = Atom::new(true, 1, "N", "ALA", "A", 5, 10, 20, 30, 100, 0, "N", 7).unwrap();
    // equality ignores the hetero flag, the residue sequence number and the charge
    assert!(a == b);
    let c = Atom::new(false, 2, "N", "ALA", "A", 1, 10, 20, 30, 100, 0, "N", 0).unwrap();
    assert!(a != c);
    assert!(a < c);
    assert!(a.clone() == a);
}

#[test]
fn atom_display_text() {
    let atom = Atom::new(false, 1, "N", "ALA", "A", 1, 11104, 13207, 2123, 100, 2000, "N", 0)
        .unwrap();
    let expected = "{\n\t'type' : 'ATOM',\n\t'number' : 1,\n\t'element' : 'N',\n\t'residue' : 'ALA',\n\t'chain' : 'A',\n\t'position' : (11.104, 13.207, 2.123),\n\t'occupancy' : 1.00,\n\t'temp_factor' : 20.00\n}";
    assert_eq!(atom.display_string(), expected);
}

#[test]
fn pdb_validates_remarks_and_identifier() {
    let mut pdb = PDB::new();
    assert!(pdb.identifier().is_none());
    assert!(pdb.set_identifier("1abc").is_ok());
    assert_eq!(pdb.identifier().unwrap(), "1ABC");
    // unregistered remark-type code
    match pdb.add_remarks(6, "nope") {
        Err(PDBError::InvalidValue(_)) => (),
        _ => panic!("remark type 6 is not registered"),
    }
    assert!(pdb.add_remarks(3, "RESOLUTION.").is_ok());
    let long: String = "x".repeat(71);
    assert!(pdb.add_remarks(3, &long).is_err());
    let edge: String = "y".repeat(70);
    assert!(pdb.add_remarks(3, &edge).is_ok());
    assert_eq!(pdb.remarks().len(), 2);
    assert_eq!(pdb.remarks()[0], (3, String::from("RESOLUTION.")));
}

#[test]
fn residue_groups_atoms() {
    let atom = Atom::new(false, 1, "N", "ALA", "A", 1, 0, 0, 0, 100, 0, "N", 0).unwrap();
    let mut res = Residue::new(" ala ", 4, Some(atom)).unwrap();
    assert_eq!(res.name(), "ALA");
    assert_eq!(res.serial_number(), 4);
    assert_eq!(res.atoms().len(), 1);
    assert!(res.atom(0).is_some());
    assert!(res.atom(1).is_none());
    let other = Atom::new(false, 2, "CA", "ALA", "A", 1, 5, 5, 5, 100, 0, "C", 0).unwrap();
    res.add_atom(other);
    assert_eq!(res.atoms().len(), 2);
    assert!(res.set_name("gly").is_ok());
    assert_eq!(res.name(), "GLY");
    assert!(res.set_name(" ").is_err());
    res.set_serial_number(9);
    assert_eq!(res.serial_number(), 9);
    assert!(res.clone() == res);
    let smaller = Residue::new("ALA", 1, None).unwrap();
    assert!(smaller < res);
}
