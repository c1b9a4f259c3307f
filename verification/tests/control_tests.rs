use browser_agent::control::Outcome;
use browser_agent::control::PageCommand;
use browser_agent::interpreter::PageElement;
use browser_agent::resolve_action;
use browser_agent::translate;
use browser_agent::Action;
use browser_agent::AgentError;
use browser_agent::Conversation;

#[test]
fn out_of_range_click_aborts_with_bounds_error() {
    match resolve_action(Action::Click(99), 5) {
        Err(AgentError::OutOfRange(id, len)) => {
            assert_eq!(id, 99);
            assert_eq!(len, 5);
        }
        other => panic!("expected OutOfRange(99, 5), got {:?}", other),
    }
}

#[test]
fn in_range_click_continues() {
    assert!(matches!(
        resolve_action(Action::Click(4), 5),
        Ok(Outcome::Continue(PageCommand::ClickElement(4)))
    ));
}

#[test]
fn out_of_range_type_aborts_with_bounds_error() {
    assert!(matches!(
        resolve_action(Action::Type(5, "x".to_string()), 5),
        Err(AgentError::OutOfRange(5, 5))
    ));
}

#[test]
fn answer_finishes_with_its_text() {
    match resolve_action(Action::Answer("all done".to_string()), 0) {
        Ok(Outcome::Finished(text)) => assert_eq!(text.as_str(), "all done"),
        other => panic!("expected Finished(\"all done\"), got {:?}", other),
    }
}

#[test]
fn search_scenario_runs_to_completion() {
    let goal = "search for cats";
    let mut conv = Conversation::new(goal.to_string());

    // Cycle 1: the page offers one search input.
    let elements = vec![PageElement {
        tag: "INPUT".to_string(),
        inner_text: None,
        alt: None,
        href: None,
        placeholder: Some("Search".to_string()),
        contains_heading: false,
    }];
    let summary = translate(&elements, false);
    assert!(summary.contains("<input id=0>Search</input>"));
    conv.begin_request("https://search.example/", &summary).unwrap();
    let action = conv.finish_request("TYPE 0 \"cats\"".to_string()).unwrap();
    match resolve_action(action, elements.len()) {
        Ok(Outcome::Continue(PageCommand::TypeSubmit(id, text))) => {
            assert_eq!(id, 0);
            assert_eq!(text.as_str(), "cats");
        }
        other => panic!("expected TypeSubmit(0, \"cats\"), got {:?}", other),
    }

    // Cycle 2: the model answers, and the run finishes with its text.
    conv.begin_request("https://search.example/results", "<p id=0>cat pictures</p>").unwrap();
    let action = conv.finish_request("ANSWER \"Found cat pictures.\"".to_string()).unwrap();
    match resolve_action(action, 1) {
        Ok(Outcome::Finished(text)) => assert_eq!(text.as_str(), "Found cat pictures."),
        other => panic!("expected Finished, got {:?}", other),
    }
}
