use brado::{certidao, cnh, cnpj, cns, cpf, eleitoral, nis, renavam};

#[test]
fn cpf_check_digits() {
    assert_eq!(cpf::generate_digit(&[6, 3, 9, 2, 9, 2, 4, 7, 0]), 1);
    assert_eq!(cpf::generate_digit(&[6, 3, 9, 2, 9, 2, 4, 7, 0, 1]), 1);
    assert_eq!(cpf::generate_digits(&[6, 3, 9, 2, 9, 2, 4, 7, 0]), (1, 1));
    assert_eq!(cpf::generate_digits(&[0, 0, 0, 0, 0, 0, 0, 0, 0]), (0, 0));
    assert_eq!(cpf::generate_digit(&[0, 0, 0, 0, 0, 0, 0, 0, 0, 0]), 0);
    assert_eq!(cpf::generate_digit(&[0, 0, 0, 0, 0, 0, 0, 1, 1]), 6);
    // A rest of ten is written as zero.
    assert_eq!(cpf::generate_digit(&[0, 0, 0, 0, 0, 0, 0, 0, 6]), 0);
    assert_eq!(cpf::generate_digit(&[]), 0);
    assert_eq!(
        cpf::append_digits(&[6, 3, 9, 2, 9, 2, 4, 7, 0]),
        vec![6, 3, 9, 2, 9, 2, 4, 7, 0, 1, 1]
    );
}

#[test]
fn cpf_document_from_body() {
    assert_eq!(cpf::document_from_body(&[6, 3, 9, 2, 9, 2, 4, 7, 0]), "63929247011");
    // Nine equal digits would give a numeral repeated: the last one moves on.
    assert_eq!(cpf::document_from_body(&[1, 1, 1, 1, 1, 1, 1, 1, 1]), "11111111200");
    assert_eq!(cpf::document_from_body(&[9, 9, 9, 9, 9, 9, 9, 9, 9]), "99999999050");
    assert!(cpf::validate("11111111200"));
    assert!(cpf::validate("99999999050"));
}

#[test]
fn cnpj_check_digits() {
    assert_eq!(cnpj::generate_digits(&[0, 5, 2, 0, 0, 8, 5, 1, 0, 0, 0, 1]), (0, 0));
    assert_eq!(cnpj::generate_digits(&[1, 1, 2, 2, 2, 3, 3, 3, 0, 0, 0, 1]), (8, 1));
    // 12.ABC.345/01DE-35, with letters counted as their code less 48.
    assert_eq!(cnpj::generate_digits(&[1, 2, 17, 18, 19, 3, 4, 5, 0, 1, 20, 21]), (3, 5));
    assert_eq!(cnpj::generate_digit(&[1, 2, 3], &[4, 3, 2]), 6);
    assert_eq!(cnpj::generate_digit(&[1], &[1]), 0);
    assert_eq!(cnpj::generate_digit(&[0], &[1]), 0);
    assert_eq!(cnpj::generate_digit(&[2], &[1]), 9);
    assert_eq!(cnpj::generate_digit(&[10], &[1]), 1);
    assert_eq!(cnpj::generate_digit(&[], &[]), 0);
}

#[test]
fn cnpj_converter() {
    assert_eq!(cnpj::to_cnpj_digit('0'), Some(0));
    assert_eq!(cnpj::to_cnpj_digit('9'), Some(9));
    assert_eq!(cnpj::to_cnpj_digit('A'), Some(17));
    assert_eq!(cnpj::to_cnpj_digit('B'), Some(18));
    assert_eq!(cnpj::to_cnpj_digit('Z'), Some(42));
    assert_eq!(cnpj::to_cnpj_digit('.'), None);
    assert_eq!(cnpj::to_cnpj_digit('/'), None);
    assert_eq!(cnpj::to_cnpj_digit('-'), None);
    assert_eq!(cnpj::to_cnpj_digit(' '), None);
    assert_eq!(cnpj::to_cnpj_digit(':'), Some(10));
    assert_eq!(cnpj::read_digits("1A.b"), vec![1, 17, 50]);
    assert_eq!(cnpj::read_symbols("1A.b-"), vec![(2, '.'), (4, '-')]);
}

#[test]
fn cnpj_with_letters() {
    assert!(cnpj::validate("12ABC34501DE35"));
    assert!(cnpj::validate("12.ABC.345/01DE-35"));
    assert!(!cnpj::validate("12ABC34501DE36"));
    assert!(!cnpj::validate("12.ABC.345/01DE-3A"));
    assert!(cnpj::is_bare("12ABC34501DE35"));
    assert!(cnpj::is_masked("12.ABC.345/01DE-35"));
    // The last two characters must be decimal digits for the text to be masked.
    assert!(!cnpj::is_masked("12.ABC.345/01DE-3A"));
    assert_eq!(cnpj::mask("12ABC34501DE35"), Ok(String::from("12.ABC.345/01DE-35")));
}

#[test]
fn cnpj_short_texts_are_refused() {
    for doc in ["", "0", "05", "-", "a"] {
        assert!(!cnpj::validate(doc));
        assert!(!cnpj::is_masked(doc));
        assert!(!cnpj::is_bare(doc));
        assert_eq!(cnpj::mask(doc), Err("The given string cannot be masked as CNPJ!"));
    }
}

#[test]
fn cnpj_uniform_digits() {
    assert!(cnpj::is_uniform(&[3, 3, 3]));
    assert!(!cnpj::is_uniform(&[3, 4, 3]));
    assert!(!cnpj::is_uniform(&[17, 17, 17]));
    assert!(!cnpj::is_uniform(&[]));
    assert!(!cnpj::validate("00000000000000"));
    assert!(!cnpj::validate("00.000.000/0000-00"));
    assert!(!cnpj::validate("AAAAAAAAAAAAAA"));
}

#[test]
fn cnpj_document_from_body() {
    assert_eq!(cnpj::document_from_body("052008510001"), "05200851000100");
    assert_eq!(cnpj::document_from_body("12ABC34501DE"), "12ABC34501DE35");
    // Twelve zeros would give fourteen: the last character is replaced.
    assert_eq!(cnpj::document_from_body("000000000000"), "00000000000191");
    assert!(cnpj::validate("00000000000191"));
    assert_eq!(cnpj::with_char_at("abc", 1, 'x'), "axc");
    let (text, digits) = cnpj::append_digits("12ABC34501DE");
    assert_eq!(text, "12ABC34501DE35");
    assert_eq!(digits, vec![1, 2, 17, 18, 19, 3, 4, 5, 0, 1, 20, 21, 3, 5]);
}

#[test]
fn cnpj_alphabet() {
    let letters = cnpj::alphabet();
    assert_eq!(letters.len(), 35);
    assert_eq!(letters[0], '0');
    assert_eq!(letters[10], 'A');
    assert_eq!(letters[34], 'Z');
    assert!(letters.iter().all(|c| cnpj::to_cnpj_digit(*c).is_some()));
    assert_eq!(
        cnpj::mask_layout(),
        vec![(2, '.'), (6, '.'), (10, '/'), (15, '-')]
    );
}

#[test]
fn cnh_check_digits() {
    assert_eq!(cnh::generate_digits(&[8, 4, 7, 1, 8, 7, 3, 5, 2]), (6, 4));
    assert_eq!(cnh::generate_first_digit(&[8, 4, 7, 1, 8, 7, 3, 5, 2]), (6, 0));
    assert_eq!(cnh::generate_second_digit(&[8, 4, 7, 1, 8, 7, 3, 5, 2], 0), 4);
    // A first rest of ten is written as zero and takes two off the second.
    assert_eq!(cnh::generate_first_digit(&[8, 6, 2, 3, 2, 7, 2, 8, 7]), (0, 2));
    assert_eq!(cnh::generate_digits(&[8, 6, 2, 3, 2, 7, 2, 8, 7]), (0, 9));
    // A second rest of one less two is wrapped to ten, which is written as zero.
    assert_eq!(cnh::generate_digits(&[5, 1, 7, 4, 0, 1, 7, 5, 3]), (0, 0));
    assert_eq!(cnh::generate_second_digit(&[5, 1, 7, 4, 0, 1, 7, 5, 3, 0], 2), 0);
    assert_eq!(cnh::generate_second_digit(&[0, 0, 0, 0, 0, 0, 0, 0, 0], 0), 0);
    assert_eq!(cnh::generate_second_digit(&[0, 0, 0, 0, 0, 0, 0, 0, 0], 2), 9);
    assert_eq!(cnh::document_from_body(&[8, 4, 7, 1, 8, 7, 3, 5, 2]), "84718735264");
    assert_eq!(cnh::document_from_body(&[5, 1, 7, 4, 0, 1, 7, 5, 3]), "51740175300");
    assert!(cnh::validate("51740175300"));
}

#[test]
fn cnh_repeated_body_is_moved_on() {
    let doc = cnh::document_from_body(&[3, 3, 3, 3, 3, 3, 3, 3, 3]);
    assert_eq!(&doc[..9], "333333334");
    assert!(cnh::validate(&doc));
    assert!(!cnh::validate("33333333333"));
}

#[test]
fn nis_check_digit() {
    assert_eq!(nis::generate_digit(&[4, 0, 8, 6, 5, 6, 5, 8, 0, 4]), 7);
    assert_eq!(nis::generate_digit(&[0, 0, 0, 0, 0, 0, 0, 0, 0, 0]), 0);
    assert_eq!(nis::generate_digit(&[0, 0, 0, 0, 0, 0, 0, 0, 0, 6]), 0);
    assert_eq!(nis::generate_digit(&[0, 0, 0, 0, 0, 0, 0, 0, 0, 1]), 9);
    assert_eq!(nis::generate_digit(&[1, 1, 1, 1, 1, 1, 1, 1, 1, 1]), 6);
    assert_eq!(
        nis::append_digit(&[4, 0, 8, 6, 5, 6, 5, 8, 0, 4]),
        vec![4, 0, 8, 6, 5, 6, 5, 8, 0, 4, 7]
    );
    assert_eq!(nis::document_from_body(&[4, 0, 8, 6, 5, 6, 5, 8, 0, 4]), "40865658047");
    // Ten ones give a six, so nothing is repeated and nothing changes.
    assert_eq!(nis::document_from_body(&[1, 1, 1, 1, 1, 1, 1, 1, 1, 1]), "11111111116");
    // Ten zeros would give eleven: the last digit of the body moves on.
    assert_eq!(nis::document_from_body(&[0, 0, 0, 0, 0, 0, 0, 0, 0, 0]), "00000000019");
    assert!(nis::validate("00000000019"));
}

#[test]
fn renavam_check_digit() {
    assert_eq!(renavam::generate_digit(&[7, 9, 0, 7, 2, 3, 3, 8, 3, 6]), 3);
    assert_eq!(renavam::generate_digit(&[0, 0, 0, 0, 0, 0, 0, 0, 0, 0]), 0);
    assert_eq!(renavam::generate_digit(&[0, 0, 0, 0, 0, 0, 0, 0, 1, 0]), 8);
    // A rest of ten is written as zero.
    assert_eq!(renavam::generate_digit(&[0, 0, 0, 0, 0, 0, 0, 0, 0, 6]), 0);
    assert_eq!(renavam::generate_digit(&[9, 9, 9, 9, 9, 9, 9, 9, 9, 9]), 0);
    assert_eq!(renavam::document_from_body(&[7, 9, 0, 7, 2, 3, 3, 8, 3, 6]), "79072338363");
    assert!(renavam::validate("00000000000"));
}

#[test]
fn eleitoral_check_digits() {
    assert_eq!(eleitoral::generate_digits(&[7, 7, 3, 5, 3, 7, 8, 0, 1, 6]), (5, 1));
    assert_eq!(eleitoral::generate_digits(&[7, 7, 3, 5, 3, 7, 8, 0, 1, 6, 5, 1]), (5, 1));
    assert_eq!(eleitoral::generate_first_digit(&[7, 7, 3, 5, 3, 7, 8, 0]), 5);
    assert_eq!(eleitoral::generate_second_digit(&[1, 6], 5), 1);
    assert_eq!(eleitoral::generate_digits(&[7, 3, 4, 0, 3, 4, 5, 8, 0, 1]), (0, 8));
    // Rests of ten are written as zero.
    assert_eq!(eleitoral::generate_first_digit(&[5, 0, 0, 0, 0, 0, 0, 0]), 0);
    assert_eq!(eleitoral::generate_second_digit(&[3, 0], 0), 0);
    assert_eq!(eleitoral::document_from_body(&[7, 7, 3, 5, 3, 7, 8, 0, 1, 6]), "773537801651");
}

#[test]
fn eleitoral_state_identifier() {
    for _ in 0..200 {
        let state = eleitoral::generate_state_identifier();
        assert_eq!(state.len(), 2);
        assert!(state[0] <= 1);
        assert!(state[1] <= 9);
    }
}

#[test]
fn certidao_check_digits() {
    let body: Vec<u16> = "219242015520231063042431158185"
        .chars()
        .map(|c| c.to_digit(10).unwrap() as u16)
        .collect();
    assert_eq!(certidao::generate_digits(&body), (3, 6));
    assert_eq!(certidao::generate_digit(&body), 3);
    let mut longer = body.clone();
    longer.push(3);
    assert_eq!(certidao::generate_digit(&longer), 6);
    assert_eq!(certidao::document_from_body(&body), "21924201552023106304243115818536");
    let mut one = vec![0u16; 30];
    // The first weight is two, the second three; a rest of ten is written as one.
    one[0] = 5;
    assert_eq!(certidao::generate_digit(&one), 1);
    one[0] = 0;
    one[1] = 1;
    assert_eq!(certidao::generate_digit(&one), 3);
    // The tenth digit has the weight zero.
    one[1] = 0;
    one[9] = 7;
    assert_eq!(certidao::generate_digit(&one), 0);
    one[9] = 0;
    one[10] = 7;
    assert_eq!(certidao::generate_digit(&one), 7);
}

#[test]
fn cns_checks() {
    assert_eq!(cns::cns_sum(&[1, 0, 0, 0, 0, 0, 0, 0, 0, 0, 0, 0, 0, 0, 1]), 16);
    assert_eq!(cns::cns_sum(&[]), 0);
    assert_eq!(
        cns::generate_last_four_digits(&[1, 4, 4, 0, 8, 2, 6, 2, 7, 2, 6]),
        vec![0, 0, 0, 4]
    );
    // Where the digit would be ten, the four digits are 001 and another digit.
    assert_eq!(
        cns::generate_last_four_digits(&[1, 0, 6, 4, 2, 7, 9, 2, 8, 7, 7]),
        vec![0, 0, 1, 8]
    );
    assert!(cns::validate("106427928770018"));
    assert!(!cns::validate("106427928770008"));
    assert_eq!(
        cns::generate_last_four_digits(&[0, 0, 0, 0, 0, 0, 0, 0, 0, 0, 0]),
        vec![0, 0, 0, 0]
    );
    assert!(cns::validate_checksum(&[1, 4, 4, 0, 8, 2, 6, 2, 7, 2, 6, 0, 0, 0, 4]));
    assert!(!cns::validate_checksum(&[1, 4, 4, 0, 8, 2, 6, 2, 7, 2, 6, 0, 0, 1, 4]));
    assert!(cns::validate_checksum(&[8, 1, 2, 2, 9, 7, 3, 4, 6, 5, 0, 0, 0, 0, 0]));
    assert!(!cns::validate_checksum(&[8, 1, 2, 2, 9, 7, 3, 4, 6, 5, 0, 0, 0, 0, 1]));
}

#[test]
fn cns_first_digits() {
    assert_eq!(cns::valid_first_digits(), vec![1, 2, 7, 8, 9]);
    for digit in [1u16, 2, 7, 8, 9] {
        assert!(cns::is_first_digit_valid(&digit));
        assert!(!cns::is_first_digit_invalid(&digit));
    }
    for digit in [0u16, 3, 4, 5, 6, 10] {
        assert!(!cns::is_first_digit_valid(&digit));
        assert!(cns::is_first_digit_invalid(&digit));
    }
    // The sum of this number is a multiple of eleven, but no CNS begins with 3.
    assert_eq!(cns::cns_sum(&[3, 0, 0, 0, 0, 0, 0, 0, 0, 0, 0, 0, 0, 1, 8]) % 11, 0);
    assert!(!cns::validate("300000000000018"));
    assert!(cns::validate("700000000001001"));
    assert!(!cns::validate("700000000000001"));
}

#[test]
fn cns_search() {
    assert_eq!(
        cns::adjust(&[7, 0, 0, 0, 0, 0, 0, 0, 0, 0, 0, 0, 0, 0, 1]),
        Some(vec![7, 0, 0, 0, 0, 0, 0, 0, 0, 0, 0, 1, 0, 0, 1])
    );
    assert_eq!(
        cns::adjust(&[8, 1, 2, 3, 4, 5, 6, 7, 8, 9, 0, 1, 2, 3, 9]),
        Some(vec![8, 1, 2, 3, 4, 5, 6, 7, 8, 9, 0, 2, 2, 3, 9])
    );
    assert_eq!(
        cns::adjust(&[7, 0, 0, 5, 0, 0, 0, 0, 0, 0, 0, 0, 0, 9, 9]),
        Some(vec![7, 0, 0, 5, 0, 0, 0, 0, 0, 1, 0, 0, 0, 9, 9])
    );
    // A sum that eleven divides already is left alone.
    assert_eq!(
        cns::adjust(&[8, 1, 2, 2, 9, 7, 3, 4, 6, 5, 0, 0, 0, 0, 0]),
        Some(vec![8, 1, 2, 2, 9, 7, 3, 4, 6, 5, 0, 0, 0, 0, 0])
    );
    // Among nines the search finds nothing.
    assert_eq!(cns::adjust(&[9; 15]), None);
    assert_eq!(cns::adjust(&[7, 9, 8, 9, 9, 9, 9, 8, 9, 9, 9, 9, 9, 9, 8]), None);
}

#[test]
fn cns_closing_pair() {
    assert_eq!(
        cns::close_with_pair(&[7, 0, 0, 0, 0, 0, 0, 0, 0, 0, 0, 0, 0, 0, 1]),
        vec![7, 0, 0, 0, 0, 0, 0, 0, 0, 0, 0, 0, 0, 0, 5]
    );
    assert_eq!(cns::close_with_pair(&[9; 15]), vec![9, 9, 9, 9, 9, 9, 9, 9, 9, 9, 9, 9, 9, 0, 3]);
    // Where the other digits lack ten, the pair is one and eight.
    assert_eq!(
        cns::close_with_pair(&[9, 9, 7, 6, 3, 9, 6, 6, 1, 2, 1, 7, 5, 0, 4]),
        vec![9, 9, 7, 6, 3, 9, 6, 6, 1, 2, 1, 7, 5, 1, 8]
    );
    assert!(cns::validate("999999999999903"));
    assert!(cns::validate("997639661217518"));
}

#[test]
fn cns_cases() {
    for _ in 0..300 {
        for first in [1u16, 2] {
            let digits = cns::generate_first_case(first);
            assert_eq!(digits.len(), 15);
            assert_eq!(digits[0], first);
            assert!(digits.iter().all(|d| *d <= 9));
            assert!(cns::validate_checksum(&digits));
        }
        for first in [7u16, 8, 9] {
            let digits = cns::generate_second_case(first);
            assert_eq!(digits.len(), 15);
            assert_eq!(digits[0], first);
            assert!(digits.iter().all(|d| *d <= 9));
            assert_eq!(cns::cns_sum(&digits) % 11, 0);
        }
    }
}
