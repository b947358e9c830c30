use koelner_phonetik::calculate;

#[test]
fn output_alphabet_only_digits_and_blanks() {
    let inputs = [
        "Erika Mustermann",
        "Überraschungsei",
        "Heinz-Classen",
        "xXyYzZ",
        "123 !? abc",
        "ß ẞ",
    ];
    for input in inputs {
        for c in calculate(input).chars() {
            assert!(('0'..='8').contains(&c) || c == ' ');
        }
    }
}

#[test]
fn no_adjacent_repeats_in_common_words() {
    let inputs = ["Heinz Classen", "Müller-Lüdenscheidt", "Schaschlik", "Regenschirm"];
    for input in inputs {
        let code = calculate(input);
        let chars: Vec<char> = code.chars().collect();
        for w in chars.windows(2) {
            assert!(!(w[0] == w[1] && w[0] != ' '));
        }
    }
}

#[test]
fn pruned_zero_can_pull_equal_digits_together() {
    // The one way two equal digits end up side by side: a dropped zero
    // stood between them in the collapsed stream.
    assert_eq!(calculate("bab"), "11");
    assert_eq!(calculate("Werkstatt"), "374822");
}

#[test]
fn zero_survives_only_as_first_character() {
    for input in ["Erika Mustermann", "Uhu", "Obst Obst", "Auge Auge Auge"] {
        let code = calculate(input);
        for (i, c) in code.chars().enumerate() {
            assert!(i == 0 || c != '0');
        }
    }
}

#[test]
fn zero_opening_a_later_word_is_dropped() {
    assert_eq!(calculate("Uhu"), "0");
    assert_eq!(calculate("Uhu Uhu"), "0 ");
    assert_eq!(calculate("Obst"), "0182");
    assert_eq!(calculate("Maus Obst"), "68 182");
}

#[test]
fn empty_input_gives_empty_output() {
    assert_eq!(calculate(""), "");
}

#[test]
fn unrecognized_characters_are_dropped() {
    assert_eq!(calculate("!?#"), "");
    assert_eq!(calculate("1234567890"), "");
    assert_eq!(calculate("R-u.s,t!"), "782");
}

#[test]
fn case_does_not_matter() {
    assert_eq!(calculate("Rust"), "782");
    assert_eq!(calculate("RUST"), "782");
    assert_eq!(calculate("rust"), "782");
    assert_eq!(calculate("MÜLLER"), calculate("müller"));
    assert_eq!(calculate("ÄÖÜ"), calculate("äöü"));
    assert_eq!(calculate("ẞ"), calculate("ß"));
}

#[test]
fn words_encode_separately_and_join_with_one_blank() {
    let joint = calculate("Erika Mustermann");
    let split = format!("{} {}", calculate("Erika"), calculate("Mustermann"));
    assert_eq!(joint, split);
    assert_eq!(joint, "074 682766");
}

#[test]
fn blank_boundary_differs_from_dropped_hyphen() {
    assert_eq!(calculate("Heinz Classen"), "068 4586");
    assert_eq!(calculate("Heinz-Classen"), "068586");
}

#[test]
fn second_word_code_opening_with_zero_breaks_the_join() {
    // "Ameise" alone encodes to "068"; after "Affe " its leading zero is
    // dropped, so the joined code is not the two codes joined.
    assert_eq!(calculate("Affe"), "03");
    assert_eq!(calculate("Ameise"), "068");
    assert_eq!(calculate("Affe Ameise"), "03 68");
}

#[test]
fn lookahead_rules_pick_the_context_digit() {
    // p before h sounds as f; d and t soften before c, s, z.
    assert_eq!(calculate("Delphin"), "2536");
    assert_eq!(calculate("Paar"), "17");
    assert_eq!(calculate("Stadt"), "822");
    assert_eq!(calculate("Arzt"), "0782");
}

#[test]
fn c_rules_depend_on_word_start_and_neighbours() {
    assert_eq!(calculate("Clown"), "4536");
    assert_eq!(calculate("Circus"), "8748");
    assert_eq!(calculate("Schaschlik"), "84854");
    // a word-opening s keeps the next c in initial position
    assert_eq!(calculate("Scl"), "845");
}

#[test]
fn x_expands_to_two_digits_unless_after_c_k_q() {
    assert_eq!(calculate("Xaver"), "4837");
    assert_eq!(calculate("Axt"), "0482");
    assert_eq!(calculate("Fuchs"), "348");
    assert_eq!(calculate("xx"), "4848");
}

#[test]
fn sharp_s_sounds_as_s() {
    assert_eq!(calculate("Straße"), "8278");
    assert_eq!(calculate("Fass"), "38");
}

#[test]
fn blanks_between_words_collapse_like_repeats() {
    assert_eq!(calculate("Erika  Mustermann"), "074 682766");
}
