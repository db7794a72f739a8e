use sighash::normalize::camel_to_snake_case;

#[test]
fn pascal_case_becomes_snake_case() {
    assert_eq!(camel_to_snake_case("MyInstruction"), "my_instruction");
}

#[test]
fn camel_case_becomes_snake_case() {
    assert_eq!(camel_to_snake_case("transferTokens"), "transfer_tokens");
}

#[test]
fn a_lowercase_word_stays() {
    assert_eq!(camel_to_snake_case("initialize"), "initialize");
}

#[test]
fn snake_case_stays() {
    assert_eq!(camel_to_snake_case("my_instruction"), "my_instruction");
}

#[test]
fn normalizing_twice_is_normalizing_once() {
    for name in ["MyInstruction", "transferTokens", "HTTPRequest", "my_instruction", "v2Account", ""] {
        let once = camel_to_snake_case(name);
        let twice = camel_to_snake_case(&once);
        assert_eq!(twice, once);
    }
}

#[test]
fn a_titlecase_letter_before_a_digit_is_split_only_once_lowercased() {
    let once = camel_to_snake_case("\u{1c5}1");
    assert_eq!(once, "\u{1c6}1");
    assert_eq!(camel_to_snake_case(&once), "\u{1c6}_1");
}

#[test]
fn separators_at_the_ends_are_kept_and_none_is_added() {
    assert_eq!(camel_to_snake_case("_leading"), "_leading");
    assert_eq!(camel_to_snake_case("Leading"), "leading");
    assert_eq!(camel_to_snake_case("trailing_"), "trailing_");
}

#[test]
fn the_empty_name_stays_empty() {
    assert_eq!(camel_to_snake_case(""), "");
}

#[test]
fn an_acronym_is_one_word() {
    assert_eq!(camel_to_snake_case("HTTPRequest"), "http_request");
}

#[test]
fn a_digit_run_is_a_word_of_its_own() {
    assert_eq!(camel_to_snake_case("v2Account"), "v_2_account");
}

#[test]
fn hyphens_and_spaces_separate_words() {
    assert_eq!(camel_to_snake_case("transfer-tokens now"), "transfer_tokens_now");
}
