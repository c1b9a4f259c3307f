use browser_agent::conversation::Role;
use browser_agent::Action;
use browser_agent::AgentError;
use browser_agent::Conversation;

#[test]
fn new_conversation_holds_only_the_preamble() {
    let conv = Conversation::new("find the answer".to_string());
    let messages = conv.messages();
    assert_eq!(messages.len(), 1);
    assert!(matches!(messages[0].role, Role::System));
    assert!(messages[0].text.starts_with("You are an agent controlling a browser."));
}

#[test]
fn user_prompt_embeds_goal_url_and_summary() {
    let mut conv = Conversation::new("buy a plant".to_string());
    conv.begin_request("https://shop.example/plants", "<button id=0>Add</button>").unwrap();
    let messages = conv.messages();
    assert_eq!(messages.len(), 2);
    assert!(matches!(messages[1].role, Role::User));
    assert_eq!(
        messages[1].text.as_str(),
        "OBJECTIVE: buy a plant\nCURRENT URL: https://shop.example/plants\nPAGE CONTENT: <button id=0>Add</button>. Remember to ONLY respond in the format of CLICK, TYPE, or ANSWER!"
    );
}

#[test]
fn same_host_grows_by_two_each_cycle() {
    let mut conv = Conversation::new("goal".to_string());
    conv.begin_request("https://a.example/x", "summary one").unwrap();
    assert_eq!(conv.messages().len(), 2);
    conv.finish_request("CLICK 0".to_string()).unwrap();
    assert_eq!(conv.messages().len(), 3);

    conv.begin_request("https://a.example/y", "summary two").unwrap();
    assert_eq!(conv.messages().len(), 4);
    conv.finish_request("CLICK 1".to_string()).unwrap();
    assert_eq!(conv.messages().len(), 5);
    assert!(matches!(conv.messages()[4].role, Role::Assistant));
    assert_eq!(conv.messages()[4].text.as_str(), "CLICK 1");
}

#[test]
fn host_change_truncates_to_preamble_plus_new_pair() {
    let mut conv = Conversation::new("goal".to_string());
    for turn in 0..3 {
        conv.begin_request("https://a.example/page", "summary").unwrap();
        conv.finish_request(format!("CLICK {turn}")).unwrap();
    }
    assert_eq!(conv.messages().len(), 7);

    conv.begin_request("https://b.example/", "fresh summary").unwrap();
    conv.finish_request("CLICK 0".to_string()).unwrap();
    let messages = conv.messages();
    assert_eq!(messages.len(), 3);
    assert!(matches!(messages[0].role, Role::System));
    assert!(matches!(messages[1].role, Role::User));
    assert!(matches!(messages[2].role, Role::Assistant));
    assert!(messages[1].text.contains("fresh summary"));
}

#[test]
fn first_request_never_truncates() {
    let mut conv = Conversation::new("goal".to_string());
    // A reply recorded before any request grows the history while no host is
    // stored yet; the first request must keep it, not reset the context.
    let _ = conv.finish_request("CLICK 0".to_string());
    assert_eq!(conv.messages().len(), 2);
    conv.begin_request("https://a.example/", "summary").unwrap();
    let messages = conv.messages();
    assert_eq!(messages.len(), 3);
    assert!(matches!(messages[1].role, Role::Assistant));
    assert_eq!(messages[1].text.as_str(), "CLICK 0");
    assert!(matches!(messages[2].role, Role::User));
}

#[test]
fn invalid_url_fails_and_changes_nothing() {
    let mut conv = Conversation::new("goal".to_string());
    conv.begin_request("https://a.example/", "summary").unwrap();
    let before = conv.messages().len();
    match conv.begin_request("not a url", "summary") {
        Err(AgentError::InvalidUrl(text)) => assert_eq!(text.as_str(), "not a url"),
        other => panic!("expected InvalidUrl, got {:?}", other),
    }
    assert_eq!(conv.messages().len(), before);
}

#[test]
fn hostless_urls_share_the_absent_host() {
    let mut conv = Conversation::new("goal".to_string());
    conv.begin_request("data:text/plain,one", "first").unwrap();
    conv.finish_request("CLICK 0".to_string()).unwrap();
    assert_eq!(conv.messages().len(), 3);
    conv.begin_request("data:text/plain,two", "second").unwrap();
    assert_eq!(conv.messages().len(), 4);
}

#[test]
fn reply_is_recorded_then_parsed() {
    let mut conv = Conversation::new("goal".to_string());
    conv.begin_request("https://a.example/", "summary").unwrap();
    match conv.finish_request("TYPE 0 \"cats\"".to_string()) {
        Ok(Action::Type(id, text)) => {
            assert_eq!(id, 0);
            assert_eq!(text.as_str(), "cats");
        }
        other => panic!("expected Type(0, \"cats\"), got {:?}", other),
    }
    let last = &conv.messages()[conv.messages().len() - 1];
    assert!(matches!(last.role, Role::Assistant));
    assert_eq!(last.text.as_str(), "TYPE 0 \"cats\"");
}

#[test]
fn bad_reply_is_recorded_and_fails() {
    let mut conv = Conversation::new("goal".to_string());
    conv.begin_request("https://a.example/", "summary").unwrap();
    assert!(matches!(
        conv.finish_request("FOO".to_string()),
        Err(AgentError::UnknownCommand(_))
    ));
    assert_eq!(conv.messages().len(), 3);
}
