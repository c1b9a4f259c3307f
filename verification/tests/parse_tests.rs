use browser_agent::Action;
use browser_agent::AgentError;

#[test]
fn click_round_trip() {
    match Action::try_from("CLICK 3") {
        Ok(Action::Click(id)) => assert_eq!(id, 3),
        other => panic!("expected Click(3), got {:?}", other),
    }
}

#[test]
fn type_round_trip() {
    match Action::try_from("TYPE 2 \"hello world\"") {
        Ok(Action::Type(id, text)) => {
            assert_eq!(id, 2);
            assert_eq!(text.as_str(), "hello world");
        }
        other => panic!("expected Type(2, \"hello world\"), got {:?}", other),
    }
}

#[test]
fn answer_round_trip() {
    match Action::try_from("ANSWER \"done\"") {
        Ok(Action::Answer(text)) => assert_eq!(text.as_str(), "done"),
        other => panic!("expected Answer(\"done\"), got {:?}", other),
    }
}

#[test]
fn unknown_command_names_token() {
    match Action::try_from("FOO bar") {
        Err(AgentError::UnknownCommand(token)) => assert_eq!(token.as_str(), "FOO"),
        other => panic!("expected UnknownCommand(\"FOO\"), got {:?}", other),
    }
}

#[test]
fn empty_reply_is_no_command() {
    assert!(matches!(Action::try_from(""), Err(AgentError::NoCommand)));
}

#[test]
fn blank_reply_is_no_command() {
    assert!(matches!(Action::try_from(" \t \n "), Err(AgentError::NoCommand)));
}

#[test]
fn click_without_id_is_missing_id() {
    match Action::try_from("CLICK") {
        Err(AgentError::MissingId(token)) => assert_eq!(token.as_str(), "CLICK"),
        other => panic!("expected MissingId(\"CLICK\"), got {:?}", other),
    }
}

#[test]
fn click_with_word_id_is_invalid() {
    match Action::try_from("CLICK abc") {
        Err(AgentError::InvalidId(token)) => assert_eq!(token.as_str(), "abc"),
        other => panic!("expected InvalidId(\"abc\"), got {:?}", other),
    }
}

#[test]
fn click_with_negative_id_is_invalid() {
    assert!(matches!(Action::try_from("CLICK -3"), Err(AgentError::InvalidId(_))));
}

#[test]
fn click_with_oversized_id_is_invalid() {
    assert!(matches!(
        Action::try_from("CLICK 99999999999999999999999999"),
        Err(AgentError::InvalidId(_))
    ));
}

#[test]
fn type_without_id_is_missing_id() {
    assert!(matches!(Action::try_from("TYPE"), Err(AgentError::MissingId(_))));
}

#[test]
fn type_rejoins_tokens_with_single_spaces() {
    match Action::try_from("TYPE 1  \"a  b\"") {
        Ok(Action::Type(id, text)) => {
            assert_eq!(id, 1);
            assert_eq!(text.as_str(), "a b");
        }
        other => panic!("expected Type(1, \"a b\"), got {:?}", other),
    }
}

#[test]
fn answer_strips_all_surrounding_quotes() {
    match Action::try_from("ANSWER \"\"hi\"\"") {
        Ok(Action::Answer(text)) => assert_eq!(text.as_str(), "hi"),
        other => panic!("expected Answer(\"hi\"), got {:?}", other),
    }
}

#[test]
fn answer_without_quotes_keeps_text() {
    match Action::try_from("ANSWER done and dusted") {
        Ok(Action::Answer(text)) => assert_eq!(text.as_str(), "done and dusted"),
        other => panic!("expected Answer(\"done and dusted\"), got {:?}", other),
    }
}

#[test]
fn unicode_whitespace_delimits_tokens() {
    match Action::try_from("CLICK\u{A0}3") {
        Ok(Action::Click(id)) => assert_eq!(id, 3),
        other => panic!("expected Click(3), got {:?}", other),
    }
}

#[test]
fn plus_signed_id_is_accepted() {
    match Action::try_from("CLICK +3") {
        Ok(Action::Click(id)) => assert_eq!(id, 3),
        other => panic!("expected Click(3), got {:?}", other),
    }
}

#[test]
fn lone_plus_id_is_invalid() {
    match Action::try_from("CLICK +") {
        Err(AgentError::InvalidId(token)) => assert_eq!(token.as_str(), "+"),
        other => panic!("expected InvalidId(\"+\"), got {:?}", other),
    }
}

#[test]
fn doubly_signed_id_is_invalid() {
    assert!(matches!(Action::try_from("CLICK ++3"), Err(AgentError::InvalidId(_))));
}

#[test]
fn keyword_is_case_sensitive() {
    assert!(matches!(Action::try_from("click 3"), Err(AgentError::UnknownCommand(_))));
}
