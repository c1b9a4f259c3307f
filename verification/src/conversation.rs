//! The conversation manager: owns the running message history, enforces the
//! host-keyed context-reset policy, and builds each prompt.
//!
//! The message list always begins with the fixed system preamble; a request
//! whose URL names a different host than the previous one truncates the list
//! back to that preamble before the new user message is appended.  The
//! network call to the language model happens outside this library, between
//! [`Conversation::begin_request`] and [`Conversation::finish_request`].

use vstd::prelude::*;
use vstd::string::StrSliceExecFns;
use vstd::string::StringExecFns;

use crate::agent::Action;
use crate::agent::AgentError;
use crate::agent::SpecAgentError;
use crate::agent::spec_parse;
use crate::text::str_eq;

verus! {

/// Who said a message.
#[derive(Debug, Clone, Copy, PartialEq, Eq, Structural)]
pub enum Role {
    System,
    User,
    Assistant,
}

/// One message of the running conversation.
#[derive(Debug, Clone)]
pub struct Message {
    pub role: Role,
    pub text: String,
}

/// The fixed instruction preamble: it names the agent's purpose and spells
/// out the summary markup and the exact reply grammar the model must use.
pub const PREAMBLE: &'static str = "You are an agent controlling a browser. You are given an objective that you are trying to achieve, the URL of the current website, and a simplified markup description of the page contents, which looks like this:\n<p id=0>text</p>\n<link id=1 href=\"link url\">text</link>\n<button id=2>text</button>\n<input id=3>placeholder</input>\n<img id=4 alt=\"image description\"/>\n\nYou must respond with ONLY one of the following commands AND NOTHING ELSE:\n    - CLICK X - click on a given element. You can only click on links, buttons, and inputs!\n    - TYPE X \"TEXT\" - type the specified text into the input with id X and press ENTER\n    - ANSWER \"TEXT\" - Respond to the user with the specified text once you have completed the objective\n";

/// The user message of one cycle: the fixed goal, the current URL and the
/// page summary, with a reminder of the reply grammar.
pub open spec fn user_prompt(goal: Seq<char>, url: Seq<char>, content: Seq<char>) -> Seq<char> {
    "OBJECTIVE: "@ + goal + "\nCURRENT URL: "@ + url + "\nPAGE CONTENT: "@ + content
        + ". Remember to ONLY respond in the format of CLICK, TYPE, or ANSWER!"@
}

/// The host of an optional string, character by character.
pub open spec fn opt_str_view(o: Option<String>) -> Option<Seq<char>> {
    match o {
        Some(s) => Some(s@),
        None => None,
    }
}

/// Whether the context must be reset for a request whose URL has host `h`:
/// only when a host was stored before and it differs from `h`.  Before the
/// first request nothing is stored and nothing is reset.
pub open spec fn host_differs(prev: Option<Option<Seq<char>>>, h: Option<Seq<char>>) -> bool {
    prev matches Some(ph) && ph != h
}

/// What `url::Url::parse` yields of a string: `None` when it is not a valid
/// URL, and otherwise the URL's host text, itself absent for URLs that have
/// no host.  Parsing is a function of the string alone.
pub uninterp spec fn parsed_host(s: Seq<char>) -> Option<Option<Seq<char>>>;

/// Relies on `url::Url::parse` and `url::Url::host_str`: both are functions
/// of the URL string alone, and `host_str` is `None` exactly for URLs
/// without a host (cannot-be-a-base and some `file:` URLs).
#[verifier::external_body]
fn parse_host(url: &str) -> (r: Option<Option<String>>)
    ensures
        match r {
            None => parsed_host(url@) is None,
            Some(h) => parsed_host(url@) matches Some(ph) && opt_str_view(h) == ph,
        },
{
    match url::Url::parse(url) {
        Ok(u) => Some(u.host_str().map(|h| h.to_string())),
        Err(_) => None,
    }
}

/// A conversation with the language model: the fixed goal, the host of the
/// most recently seen URL, and the ordered message list.
#[derive(Debug)]
pub struct Conversation {
    goal: String,
    last_host: Option<Option<String>>,
    messages: Vec<Message>,
}

impl Conversation {
    /// The fixed objective threaded into every prompt.
    pub closed spec fn spec_goal(&self) -> Seq<char> {
        self.goal@
    }

    /// The host component of the most recently seen URL: `None` before the
    /// first request, `Some(None)` after a URL without a host.
    pub closed spec fn spec_host(&self) -> Option<Option<Seq<char>>> {
        match self.last_host {
            Some(h) => Some(opt_str_view(h)),
            None => None,
        }
    }

    /// The ordered message list.
    pub closed spec fn spec_messages(&self) -> Seq<Message> {
        self.messages@
    }

    /// The standing invariant: the list begins with the system preamble, and
    /// truncation never removes it.
    pub open spec fn wf(&self) -> bool {
        &&& self.spec_messages().len() >= 1
        &&& self.spec_messages()[0].role == Role::System
        &&& self.spec_messages()[0].text@ == PREAMBLE@
    }

    /// Starts a conversation holding only the system preamble.
    pub fn new(goal: String) -> (c: Conversation)
        ensures
            c.wf(),
            c.spec_goal() == goal@,
            c.spec_host() is None,
            c.spec_messages().len() == 1,
    {
        let mut messages: Vec<Message> = Vec::new();
        messages.push(Message { role: Role::System, text: PREAMBLE.to_owned() });
        Conversation { goal, last_host: None, messages }
    }

    /// The running message list, preamble first, for the caller to hand to
    /// the language model.
    pub fn messages(&self) -> (r: &Vec<Message>)
        ensures
            r@ == self.spec_messages(),
    {
        &self.messages
    }

    /// Applies the context-reset policy for one request: extracts the URL's
    /// host, truncates the history back to the preamble exactly when a host
    /// was stored before and differs from the new one, and remembers the new
    /// host unconditionally (also on the first request, which never resets).
    /// Fails, changing nothing, exactly when the URL does not parse.
    fn enforce_context_length(&mut self, url: &str) -> (r: Result<(), AgentError>)
        requires
            old(self).wf(),
        ensures
            final(self).wf(),
            final(self).spec_goal() == old(self).spec_goal(),
            match parsed_host(url@) {
                None => {
                    &&& r matches Err(e) && e@ == SpecAgentError::InvalidUrl(url@)
                    &&& final(self).spec_messages() == old(self).spec_messages()
                    &&& final(self).spec_host() == old(self).spec_host()
                },
                Some(h) => {
                    &&& r is Ok
                    &&& final(self).spec_host() == Some(h)
                    &&& final(self).spec_messages() == if host_differs(old(self).spec_host(), h) {
                        old(self).spec_messages().subrange(0, 1)
                    } else {
                        old(self).spec_messages()
                    }
                },
            },
    {
        let host = match parse_host(url) {
            None => {
                return Err(AgentError::InvalidUrl(url.to_owned()));
            },
            Some(h) => h,
        };
        let reset = match (&self.last_host, &host) {
            (None, _) => false,
            (Some(Some(a)), Some(b)) => !str_eq(a.as_str(), b.as_str()),
            (Some(None), None) => false,
            _ => true,
        };
        proof {
            assert(reset == host_differs(old(self).spec_host(), opt_str_view(host)));
        }
        if reset {
            self.messages.truncate(1);
        }
        self.last_host = Some(host);
        Ok(())
    }

    /// Prepares one request: extracts the URL's host, truncates the history
    /// back to the preamble when a stored host differs from it (never on the
    /// first request), and appends the user message built from the goal, the
    /// URL and the page summary.  Fails, changing nothing, exactly when the
    /// URL does not parse.
    pub fn begin_request(&mut self, url: &str, page_content: &str) -> (r: Result<(), AgentError>)
        requires
            old(self).wf(),
        ensures
            final(self).wf(),
            final(self).spec_goal() == old(self).spec_goal(),
            match parsed_host(url@) {
                None => {
                    &&& r matches Err(e) && e@ == SpecAgentError::InvalidUrl(url@)
                    &&& final(self).spec_messages() == old(self).spec_messages()
                    &&& final(self).spec_host() == old(self).spec_host()
                },
                Some(h) => {
                    &&& r is Ok
                    &&& final(self).spec_host() == Some(h)
                    &&& ({
                        let kept = if host_differs(old(self).spec_host(), h) {
                            old(self).spec_messages().subrange(0, 1)
                        } else {
                            old(self).spec_messages()
                        };
                        &&& final(self).spec_messages().len() == kept.len() + 1
                        &&& (forall|i: int|
                            0 <= i < kept.len() ==> #[trigger] final(self).spec_messages()[i]
                                == kept[i])
                        &&& final(self).spec_messages().last().role == Role::User
                        &&& final(self).spec_messages().last().text@ == user_prompt(
                            old(self).spec_goal(),
                            url@,
                            page_content@,
                        )
                    })
                },
            },
    {
        if let Err(e) = self.enforce_context_length(url) {
            return Err(e);
        }
        let mut text = String::new();
        text.append("OBJECTIVE: ");
        text.append(self.goal.as_str());
        text.append("\nCURRENT URL: ");
        text.append(url);
        text.append("\nPAGE CONTENT: ");
        text.append(page_content);
        text.append(". Remember to ONLY respond in the format of CLICK, TYPE, or ANSWER!");
        proof {
            assert(text@ =~= user_prompt(old(self).spec_goal(), url@, page_content@));
        }
        self.messages.push(Message { role: Role::User, text });
        Ok(())
    }

    /// Records the model's reply as an assistant message (the history keeps
    /// growing while the host stays the same) and parses it into the action
    /// it commands, or the parse error.
    pub fn finish_request(&mut self, reply: String) -> (r: Result<Action, AgentError>)
        requires
            old(self).wf(),
        ensures
            final(self).wf(),
            final(self).spec_goal() == old(self).spec_goal(),
            final(self).spec_host() == old(self).spec_host(),
            final(self).spec_messages().len() == old(self).spec_messages().len() + 1,
            forall|i: int|
                0 <= i < old(self).spec_messages().len() ==> final(self).spec_messages()[i] == old(
                    self,
                ).spec_messages()[i],
            final(self).spec_messages().last().role == Role::Assistant,
            final(self).spec_messages().last().text@ == reply@,
            ({
                let sp = spec_parse(reply@);
                match r {
                    Ok(a) => sp matches Ok(v) && a@ == v,
                    Err(e) => sp matches Err(v) && e@ == v,
                }
            }),
    {
        let action = Action::try_from(reply.as_str());
        self.messages.push(Message { role: Role::Assistant, text: reply });
        action
    }
}

} // verus!
