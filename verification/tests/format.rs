use pdbio::atom::Atom;
use pdbio::error::PDBError;
use pdbio::pdb::PDB;
use pdbio::read::read_pdb_raw;
use pdbio::save::save_pdb_raw;

fn lines_of(strs: &[&str]) -> Vec<String> {
    strs.iter().map(|s| s.to_string()).collect()
}

#[test]
fn decodes_full_atom_line() {
    let line =
        "ATOM      1  N   ALA A   1      11.104  13.207   2.123  1.00 20.00           N  ";
    let pdb = read_pdb_raw(&lines_of(&[line])).unwrap();
    assert_eq!(pdb.atoms().len(), 1);
    let atom = &pdb.atoms()[0];
    assert!(!atom.hetero());
    assert_eq!(atom.serial_number(), 1);
    assert_eq!(atom.atom_name(), "N");
    assert_eq!(atom.res_name(), "ALA");
    assert_eq!(atom.chain_id(), "A");
    assert_eq!(atom.res_seq(), 1);
    assert_eq!(atom.position(), (11104, 13207, 2123));
    assert_eq!(atom.occupancy(), 100);
    assert_eq!(atom.temp_factor(), 2000);
    assert_eq!(atom.element(), "N");
    assert_eq!(atom.charge(), 0);
}

#[test]
fn decodes_hetatm_and_short_defaults() {
    // 54 characters exactly: occupancy defaults to 1.00, temp factor to 0
    let line = "HETATM    9  O   HOH B   2      -1.500   0.250   3.000";
    let pdb = read_pdb_raw(&lines_of(&[line])).unwrap();
    let atom = &pdb.atoms()[0];
    assert!(atom.hetero());
    assert_eq!(atom.position(), (-1500, 250, 3000));
    assert_eq!(atom.occupancy(), 100);
    assert_eq!(atom.temp_factor(), 0);
    assert_eq!(atom.element(), "");
}

#[test]
fn folds_remark_line() {
    let pdb = read_pdb_raw(&lines_of(&["REMARK   3 RESOLUTION."])).unwrap();
    assert_eq!(pdb.remarks().len(), 1);
    assert_eq!(pdb.remarks()[0], (3, String::from("RESOLUTION.")));
}

#[test]
fn folds_header_line() {
    let line = "HEADER    OXIDOREDUCTASE                          12-JAN-98   1abc";
    let pdb = read_pdb_raw(&lines_of(&[line])).unwrap();
    assert_eq!(pdb.identifier().unwrap(), "1ABC");
}

#[test]
fn unregistered_remark_type_fails_fold() {
    let r = read_pdb_raw(&lines_of(&["REMARK   6 NOT A REGISTERED CODE"]));
    match r {
        Err(PDBError::InvalidValue(_)) => (),
        _ => panic!("remark type 6 must be rejected when folded"),
    }
}

#[test]
fn short_atom_line_fails_with_line_number() {
    let r = read_pdb_raw(&lines_of(&["TER", "ATOM      1  N   ALA"]));
    match r {
        Err(PDBError::ParseError(line, _)) => assert_eq!(line, 2),
        _ => panic!("a short atom line must fail with its line number"),
    }
}

#[test]
fn bad_numeric_field_fails_with_line_number() {
    let line = "ATOM      1  N   ALA A   1      11.1x4  13.207   2.123  1.00 20.00           N  ";
    match read_pdb_raw(&lines_of(&[line])) {
        Err(PDBError::ParseError(line_no, _)) => assert_eq!(line_no, 1),
        _ => panic!("a malformed coordinate must fail with its line number"),
    }
}

#[test]
fn terminator_and_end_do_not_stop_the_scan() {
    let atom = "ATOM      1  N   ALA A   1      11.104  13.207   2.123  1.00 20.00           N  ";
    let atom2 = "ATOM      2  CA  ALA A   1       1.000   2.000   3.000  1.00  0.00           C  ";
    let pdb = read_pdb_raw(&lines_of(&["TER", "END", atom, "TER   ", "END   ", atom2])).unwrap();
    assert_eq!(pdb.atoms().len(), 2);
}

#[test]
fn unmatched_lines_are_ignored(){
    let pdb = read_pdb_raw(&lines_of(&["", "X", "SOMETHING ELSE ENTIRELY", "ATO"]))
        .unwrap();
    assert_eq!(pdb.atoms().len(), 0);
    assert_eq!(pdb.remarks().len(), 0);
    assert!(pdb.identifier().is_none());
}

#[test]
fn writes_atom_line_padded_without_charge_digits() {
    let mut pdb = PDB::new();
    let atom = Atom::new(false, 1, "N", "ALA", "A", 1, 11104, 13207, 2123, 100, 2000, "N", 0)
        .unwrap();
    pdb.add_atom(atom);
    let lines = save_pdb_raw(&pdb, true);
    assert_eq!(lines.len(), 2);
    let line = &lines[0];
    assert!(line.len() >= 70);
    assert!(line.starts_with("ATOM      1  N   ALA A"));
    assert_eq!(&line[30..38], "  11.104");
    assert_eq!(&line[38..46], "  13.207");
    assert_eq!(&line[46..54], "   2.123");
    assert_eq!(&line[54..60], "  1.00");
    assert_eq!(&line[60..66], " 20.00");
    assert_eq!(&line[76..78], " N");
    // charge is zero and no sign was set: no trailing charge digits
    assert!(line.trim_end().ends_with('N'));
    assert_eq!(lines[1].trim_end(), "TER");
}

#[test]
fn writes_header_and_remarks_unless_atom_only() {
    let mut pdb = PDB::new();
    pdb.set_identifier("1abc").unwrap();
    pdb.add_remarks(3, "RESOLUTION.").unwrap();
    let all = save_pdb_raw(&pdb, false);
    assert_eq!(all.len(), 3);
    assert!(all[0].starts_with("HEADER"));
    assert_eq!(all[0].len(), 70);
    assert_eq!(&all[0][62..66], "1ABC");
    assert!(all[1].starts_with("REMARK   3 RESOLUTION."));
    assert_eq!(all[1].len(), 70);
    let atom_only = save_pdb_raw(&pdb, true);
    assert_eq!(atom_only.len(), 1);
    assert_eq!(atom_only[0].trim_end(), "TER");
}

#[test]
fn round_trip_preserves_structure() {
    let mut pdb = PDB::new();
    pdb.set_identifier("1abc").unwrap();
    pdb.add_remarks(3, "RESOLUTION.").unwrap();
    pdb.add_remarks(999, "").unwrap();
    let a1 = Atom::new(false, 1, "N", "ALA", "A", 1, 11104, 13207, 2123, 100, 2000, "N", 0)
        .unwrap();
    let a2 = Atom::new(true, 2, "FE", "HEM", "B", 42, -999999, 9999999, 0, 99999, -9999, "FE", 0)
        .unwrap();
    pdb.add_atom(a1);
    pdb.add_atom(a2);
    let lines = save_pdb_raw(&pdb, false);
    let back = read_pdb_raw(&lines).unwrap();
    assert!(back == pdb);
    assert_eq!(back.identifier().unwrap(), "1ABC");
    assert_eq!(back.remarks().len(), 2);
    assert_eq!(back.atoms().len(), 2);
    assert_eq!(back.atoms()[0].position(), (11104, 13207, 2123));
    assert_eq!(back.atoms()[1].position(), (-999999, 9999999, 0));
    assert!(back.atoms()[1].hetero());
    assert_eq!(back.atoms()[1].res_seq(), 42);
    // idempotence: a second write and read gives the same structure again
    let lines2 = save_pdb_raw(&back, false);
    let back2 = read_pdb_raw(&lines2).unwrap();
    assert!(back2 == back);
    assert_eq!(lines2, save_pdb_raw(&back2, false));
}

#[test]
fn nonzero_charge_is_written_but_not_read_back() {
    let mut pdb = PDB::new();
    let atom = Atom::new(false, 1, "N", "ALA", "A", 1, 0, 0, 0, 100, 0, "N", 3).unwrap();
    pdb.add_atom(atom);
    let lines = save_pdb_raw(&pdb, true);
    assert!(lines[0].ends_with("N3"));
    let back = read_pdb_raw(&lines).unwrap();
    assert_eq!(back.atoms()[0].charge(), 0);
    // the structures still compare equal: the atom equality ignores charge
    assert!(back == pdb);
}

#[test]
fn charge_columns_validated_when_present() {
    let base = "ATOM      1  N   ALA A   1      11.104  13.207   2.123  1.00 20.00           N";
    // 78 chars so far; extend to 80 with a digit and a sign
    let good = format!("{}1+", base);
    let pdb = read_pdb_raw(&vec![good]).unwrap();
    assert_eq!(pdb.atoms()[0].charge(), 1);
    let bad_digit = format!("{}x+", base);
    assert!(read_pdb_raw(&vec![bad_digit]).is_err());
    let bad_sign = format!("{}12", base);
    assert!(read_pdb_raw(&vec![bad_sign]).is_err());
}

#[test]
fn header_too_short_fails() {
    match read_pdb_raw(&lines_of(&["HEADER    TOO SHORT"])) {
        Err(PDBError::ParseError(line, _)) => assert_eq!(line, 1),
        _ => panic!("a short header must fail with its line number"),
    }
}

#[test]
fn remark_too_long_fails() {
    let line = format!("REMARK   3 {}", "z".repeat(70));
    assert!(line.len() > 80);
    match read_pdb_raw(&vec![line]) {
        Err(PDBError::ParseError(line_no, _)) => assert_eq!(line_no, 1),
        _ => panic!("an over-long remark line must fail"),
    }
}
