use brado::docs;
use brado::docs::doc::Document;

#[test]
fn validate_cpf_1() {
    let doc: Document = Document::new("11111111111");
    assert_eq!(false, docs::cpf::validate(&doc, false, false));
}

#[test]
fn validate_cpf_2() {
    let doc: Document = Document::new("111.111.111-11");
    assert_eq!(false, docs::cpf::validate(&doc, false, false));
}

#[test]
fn validate_cpf_3() {
    let doc: Document = Document::new("63929247011");
    assert_eq!(true, docs::cpf::validate(&doc, false, true));
}

#[test]
fn validate_cpf_4() {
    let doc: Document = Document::new("639.292.470-11");
    assert_eq!(true, docs::cpf::validate(&doc, false, false));
}

#[test]
fn validate_cnpj_1() {
    let doc: Document = Document::new("05200851000100");
    assert_eq!(true, docs::cnpj::validate(doc));
}

#[test]
fn validate_cnpj_2() {
    let doc: Document = Document::new("05.200.851/0001-00");
    assert_eq!(true, docs::cnpj::validate(doc));
}

#[test]
fn document_holds_its_text() {
    let doc = Document::new("639.292");
    assert_eq!(doc.len(), 7);
    assert!(!doc.is_empty());
    assert_eq!(doc.chars(), vec!['6', '3', '9', '.', '2', '9', '2']);
    assert_eq!(doc.get_char(3), '.');
    assert_eq!(doc.text(), "639.292");
}

#[test]
fn document_counts_characters_not_bytes() {
    let doc = Document::new("é1");
    assert_eq!(doc.len(), 2);
    assert_eq!(doc.get_char(1), '1');
    assert!(Document::new("").is_empty());
}

#[test]
fn document_digits_and_symbols() {
    let doc = Document::new("639.292.470-11");
    assert_eq!(docs::common::to_digit(&doc), vec![6, 3, 9, 2, 9, 2, 4, 7, 0, 1, 1]);
    assert!(docs::common::valid_symbols(&doc, &['-', '.']));
    assert!(!docs::common::valid_symbols(&doc, &['.']));
    assert!(!docs::common::valid_symbols(&doc, &['.', '-', '/']));
    assert!(!docs::common::valid_symbols(&doc, &['.', '-', '1']));
    assert!(docs::common::valid_symbols(&Document::new("123"), &[]));
}

#[test]
fn flagged_cpf_checks_symbols_only_when_asked() {
    assert!(docs::cpf::validate_str("639.292.470-11", true, false));
    assert!(!docs::cpf::validate_str("63929247011", true, false));
    assert!(docs::cpf::validate_str("63929247011", false, false));
    assert!(!docs::cpf::validate_str("639.292.470/11", true, false));
    assert!(docs::cpf::validate_str("639.292.470/11", false, false));
    assert!(!docs::cpf::validate_str("63929247010", false, false));
    assert!(!docs::cpf::validate_str("6392924701", false, true));
}

#[test]
fn flagged_cpf_lets_repeated_numerals_through_when_asked() {
    assert!(!docs::cpf::validate_str("11111111111", false, false));
    assert!(docs::cpf::validate_str("11111111111", false, true));
    assert!(docs::cpf::is_repeated(&[4, 4, 4]));
    assert!(!docs::cpf::is_repeated(&[4, 5, 4]));
    assert!(!docs::cpf::is_repeated(&[]));
    assert_eq!(docs::cpf::generate_digit(&[6, 3, 9, 2, 9, 2, 4, 7, 0, 1, 1], 10), 1);
    assert_eq!(docs::cpf::generate_digit(&[6, 3, 9, 2, 9, 2, 4, 7, 0, 1, 1], 11), 1);
}

#[test]
fn flagged_cnh() {
    assert!(docs::cnh::validate_str("84718735264", false, false));
    assert!(docs::cnh::validate_str("847 187 352 64", true, false));
    assert!(!docs::cnh::validate_str("84718735264", true, false));
    assert!(!docs::cnh::validate_str("847.187.352.64", true, false));
    assert!(!docs::cnh::validate_str("84718735265", false, false));
    assert!(!docs::cnh::validate_str("22222222222", false, false));
    assert!(docs::cnh::validate_str("22222222222", false, true));
    assert!(docs::cnh::validate(&Document::new("84718735264"), false, false));
    assert_eq!(docs::cnh::generate_digits(&[8, 4, 7, 1, 8, 7, 3, 5, 2, 0, 0]), (6, 4));
}

#[test]
fn document_cnpj_digit() {
    let digits: Vec<u8> = vec![0, 5, 2, 0, 0, 8, 5, 1, 0, 0, 0, 1, 0, 0];
    let first = docs::cnpj::generate_digit(&digits, 12, vec![5, 4, 3, 2, 9, 8, 7, 6, 5, 4, 3, 2]);
    assert_eq!(first, 0);
    let body: Vec<u8> = vec![1, 1, 2, 2, 2, 3, 3, 3, 0, 0, 0, 1];
    let d13 = docs::cnpj::generate_digit(&body, 12, vec![5, 4, 3, 2, 9, 8, 7, 6, 5, 4, 3, 2]);
    assert_eq!(d13, 8);
    assert!(!docs::cnpj::validate(Document::new("05200851000101")));
}

#[test]
fn flagged_cnpj() {
    assert!(docs::cnpj::validate_str("05200851000100", false));
    assert!(docs::cnpj::validate_str("05.200.851/0001-00", false));
    assert!(docs::cnpj::validate_str("05.200.851/0001-00", true));
    assert!(!docs::cnpj::validate_str("05200851000100", true));
    assert!(!docs::cnpj::validate_str("05.200.851/0001-01", true));
    assert!(!docs::cnpj::validate_str("", false));
}
