//! Commands the model may issue, and the parser that turns its free-text
//! reply into exactly one of them.
//!
//! The reply grammar is a closed set of whitespace-delimited forms:
//! `CLICK <id>`, `TYPE <id> "<text>"` and `ANSWER "<text>"`.  The id must be
//! a decimal numeral; the text is the remaining tokens rejoined with single
//! spaces, with surrounding quote characters stripped and no further escaping
//! interpreted.  Anything else is rejected with an error that carries the
//! offending token.

use vstd::prelude::*;
use vstd::string::StrSliceExecFns;
use vstd::string::StringExecFns;

use crate::text::dec_digits;
use crate::text::is_space;
use crate::text::join_with;
use crate::text::lemma_dec_digits_value;
use crate::text::lemma_digit_not_space;
use crate::text::lemma_join_with_push;
use crate::text::parse_usize;
use crate::text::spec_parse_usize;
use crate::text::str_eq;

verus! {

/// An action chosen by the model, to be resolved against the element
/// enumeration of the same cycle.  `Answer` is the only terminal action.
#[derive(Debug, Clone)]
pub enum Action {
    /// Click on the element in the given slot.
    Click(usize),
    /// Respond to the user with the given text and stop.
    Answer(String),
    /// Type the given text into the element in the given slot, then press
    /// ENTER.
    Type(usize, String),
}

/// The mathematical shape of an [`Action`]: slot ids as integers, texts as
/// character sequences.
pub enum SpecAction {
    Click(int),
    Answer(Seq<char>),
    Type(int, Seq<char>),
}

impl View for Action {
    type V = SpecAction;

    open spec fn view(&self) -> SpecAction {
        match self {
            Action::Click(id) => SpecAction::Click(*id as int),
            Action::Answer(text) => SpecAction::Answer(text@),
            Action::Type(id, text) => SpecAction::Type(*id as int, text@),
        }
    }
}

/// Why a request could not be served: the model's reply did not parse, the
/// current URL was not a URL, or a chosen slot id was out of range.
#[derive(Debug, Clone)]
pub enum AgentError {
    /// The reply held no token at all.
    NoCommand,
    /// The reply's first token is not a known command keyword.
    UnknownCommand(String),
    /// The command needs an id token and none followed it.
    MissingId(String),
    /// The id token is not a decimal numeral (one optional leading plus
    /// sign, then digits) that fits in `usize`.
    InvalidId(String),
    /// The current URL could not be parsed.
    InvalidUrl(String),
    /// The chosen slot id is not below the element count.
    OutOfRange(usize, usize),
}

/// The mathematical shape of an [`AgentError`].
pub enum SpecAgentError {
    NoCommand,
    UnknownCommand(Seq<char>),
    MissingId(Seq<char>),
    InvalidId(Seq<char>),
    InvalidUrl(Seq<char>),
    OutOfRange(int, int),
}

impl View for AgentError {
    type V = SpecAgentError;

    open spec fn view(&self) -> SpecAgentError {
        match self {
            AgentError::NoCommand => SpecAgentError::NoCommand,
            AgentError::UnknownCommand(t) => SpecAgentError::UnknownCommand(t@),
            AgentError::MissingId(t) => SpecAgentError::MissingId(t@),
            AgentError::InvalidId(t) => SpecAgentError::InvalidId(t@),
            AgentError::InvalidUrl(t) => SpecAgentError::InvalidUrl(t@),
            AgentError::OutOfRange(id, len) => SpecAgentError::OutOfRange(*id as int, *len as int),
        }
    }
}

/// The first position at or after `i` holding a non-whitespace character, or
/// the length when there is none.
pub open spec fn next_non_space(s: Seq<char>, i: int) -> int
    decreases s.len() - i,
{
    if i < 0 || i >= s.len() {
        s.len() as int
    } else if is_space(s[i]) {
        next_non_space(s, i + 1)
    } else {
        i
    }
}

/// The first position at or after `i` holding a whitespace character, or the
/// length when there is none.
pub open spec fn token_end(s: Seq<char>, i: int) -> int
    decreases s.len() - i,
{
    if i < 0 || i >= s.len() {
        s.len() as int
    } else if is_space(s[i]) {
        i
    } else {
        token_end(s, i + 1)
    }
}

/// Both scans stay between their start and the length.
pub proof fn lemma_scan_bounds(s: Seq<char>, i: int)
    requires
        0 <= i <= s.len(),
    ensures
        i <= next_non_space(s, i) <= s.len(),
        i <= token_end(s, i) <= s.len(),
    decreases s.len() - i,
{
    if i < s.len() {
        lemma_scan_bounds(s, i + 1);
    }
}

/// The whitespace-delimited tokens of `s` from position `i` on, in order.
pub open spec fn tokens_from(s: Seq<char>, i: int) -> Seq<Seq<char>>
    decreases s.len() - i,
    via tokens_from_dec
{
    if i < 0 || i >= s.len() {
        Seq::empty()
    } else if is_space(s[i]) {
        tokens_from(s, i + 1)
    } else {
        seq![s.subrange(i, token_end(s, i))] + tokens_from(s, token_end(s, i))
    }
}

#[via_fn]
proof fn tokens_from_dec(s: Seq<char>, i: int) {
    if 0 <= i < s.len() && !is_space(s[i]) {
        lemma_scan_bounds(s, i + 1);
    }
}

/// The whitespace-delimited tokens of `s`, in order, none empty.
pub open spec fn tokens(s: Seq<char>) -> Seq<Seq<char>> {
    tokens_from(s, 0)
}

/// `s` with every leading quote character removed.
pub open spec fn drop_leading_quotes(s: Seq<char>) -> Seq<char>
    decreases s.len(),
{
    if s.len() > 0 && s[0] == '"' {
        drop_leading_quotes(s.drop_first())
    } else {
        s
    }
}

/// `s` with every trailing quote character removed.
pub open spec fn drop_trailing_quotes(s: Seq<char>) -> Seq<char>
    decreases s.len(),
{
    if s.len() > 0 && s.last() == '"' {
        drop_trailing_quotes(s.drop_last())
    } else {
        s
    }
}

/// `s` with its surrounding quote characters stripped from both ends.
pub open spec fn strip_quotes(s: Seq<char>) -> Seq<char> {
    drop_trailing_quotes(drop_leading_quotes(s))
}

/// The free text of a command: the tokens after the keyword (and id, where
/// one is required) rejoined with single spaces, quotes stripped.
pub open spec fn rest_text(ts: Seq<Seq<char>>, start: int) -> Seq<char> {
    strip_quotes(join_with(ts.skip(start), ' '))
}

/// What parsing a model reply yields: exactly one action for a well-formed
/// command, and otherwise the error naming the offending token.
pub open spec fn spec_parse(s: Seq<char>) -> Result<SpecAction, SpecAgentError> {
    let ts = tokens(s);
    if ts.len() == 0 {
        Err(SpecAgentError::NoCommand)
    } else if ts[0] == "CLICK"@ {
        if ts.len() < 2 {
            Err(SpecAgentError::MissingId(ts[0]))
        } else {
            match spec_parse_usize(ts[1]) {
                Some(id) => Ok(SpecAction::Click(id as int)),
                None => Err(SpecAgentError::InvalidId(ts[1])),
            }
        }
    } else if ts[0] == "TYPE"@ {
        if ts.len() < 2 {
            Err(SpecAgentError::MissingId(ts[0]))
        } else {
            match spec_parse_usize(ts[1]) {
                Some(id) => Ok(SpecAction::Type(id as int, rest_text(ts, 2))),
                None => Err(SpecAgentError::InvalidId(ts[1])),
            }
        }
    } else if ts[0] == "ANSWER"@ {
        Ok(SpecAction::Answer(rest_text(ts, 1)))
    } else {
        Err(SpecAgentError::UnknownCommand(ts[0]))
    }
}

/// Round trip for the click command: parsing `CLICK` followed by the decimal
/// numeral of any representable id yields exactly `Click` of that id.
pub proof fn lemma_parse_click_round_trip(n: nat)
    requires
        n <= usize::MAX as nat,
    ensures
        spec_parse("CLICK "@ + dec_digits(n)) == Ok::<SpecAction, SpecAgentError>(
            SpecAction::Click(n as int),
        ),
{
    reveal_strlit("CLICK ");
    reveal_strlit("CLICK");
    lemma_dec_digits_value(n);
    let d = dec_digits(n);
    let s = "CLICK "@ + d;
    assert(s.len() == 6 + d.len());
    assert(s[0] == 'C' && s[1] == 'L' && s[2] == 'I' && s[3] == 'C' && s[4] == 'K' && s[5] == ' ');
    assert forall|j: int| 6 <= j < s.len() implies !is_space(s[j]) by {
        assert(s[j] == d[j - 6]);
        lemma_digit_not_space(d[j - 6]);
    }
    assert forall|j: int| 0 <= j < 5 implies !is_space(s[j]) by {
        assert(s[j] == 'C' || s[j] == 'L' || s[j] == 'I' || s[j] == 'K');
    }
    lemma_token_end_stops(s, 0, 5);
    lemma_token_end_stops(s, 6, s.len() as int);
    assert(tokens_from(s, s.len() as int) =~= Seq::<Seq<char>>::empty());
    assert(tokens_from(s, 6) =~= seq![s.subrange(6, s.len() as int)] + tokens_from(
        s,
        s.len() as int,
    ));
    assert(s.subrange(6, s.len() as int) =~= d);
    assert(tokens_from(s, 5) == tokens_from(s, 6));
    assert(tokens_from(s, 0) =~= seq![s.subrange(0, 5)] + tokens_from(s, 5));
    assert(s.subrange(0, 5) =~= "CLICK"@);
    assert(tokens(s) =~= seq!["CLICK"@, d]);
    assert(tokens(s).len() == 2);
    assert(tokens(s)[1] == d);
    assert(spec_parse_usize(d) == Some(n));
}

/// The whitespace scan started on a whitespace-free stretch stops exactly at
/// the whitespace (or the end) that closes it.
proof fn lemma_token_end_stops(s: Seq<char>, i: int, k: int)
    requires
        0 <= i <= k <= s.len(),
        forall|j: int| i <= j < k ==> !is_space(s[j]),
        k == s.len() || is_space(s[k]),
    ensures
        token_end(s, i) == k,
    decreases k - i,
{
    if i < k {
        lemma_token_end_stops(s, i + 1, k);
    }
}

/// Stripping the quotes of a word that is quoted exactly once yields the
/// word, when the word itself starts and ends with something else.
proof fn lemma_strip_single_quotes(t: Seq<char>)
    requires
        t.len() > 0,
        t[0] != '"',
        t.last() != '"',
    ensures
        strip_quotes(seq!['"'] + t + seq!['"']) == t,
{
    let q = seq!['"'] + t + seq!['"'];
    let u = t + seq!['"'];
    assert(q[0] == '"');
    assert(q.drop_first() =~= u);
    assert(drop_leading_quotes(q) == drop_leading_quotes(u));
    assert(u[0] == t[0]);
    assert(drop_leading_quotes(u) == u);
    assert(u.last() == '"');
    assert(u.drop_last() =~= t);
    assert(drop_trailing_quotes(u) == drop_trailing_quotes(t));
    assert(drop_trailing_quotes(t) == t);
}

/// Round trip for the type command with one quoted word: parsing `TYPE`, the
/// decimal numeral of any representable id, and a quote-free,
/// whitespace-free word in quotes yields exactly `Type` of both.
pub proof fn lemma_parse_type_round_trip(n: nat, t: Seq<char>)
    requires
        n <= usize::MAX as nat,
        t.len() > 0,
        forall|j: int| 0 <= j < t.len() ==> !is_space(#[trigger] t[j]) && t[j] != '"',
    ensures
        spec_parse("TYPE "@ + dec_digits(n) + " \""@ + t + "\""@) == Ok::<
            SpecAction,
            SpecAgentError,
        >(SpecAction::Type(n as int, t)),
{
    reveal_strlit("TYPE ");
    reveal_strlit("TYPE");
    reveal_strlit(" \"");
    reveal_strlit("\"");
    reveal_strlit("CLICK");
    lemma_dec_digits_value(n);
    let d = dec_digits(n);
    let dl = d.len() as int;
    let s = "TYPE "@ + d + " \""@ + t + "\""@;
    assert(s.len() == 8 + dl + t.len());
    assert(s[0] == 'T' && s[1] == 'Y' && s[2] == 'P' && s[3] == 'E' && s[4] == ' ');
    assert forall|j: int| 5 <= j < 5 + dl implies !is_space(s[j]) by {
        assert(s[j] == d[j - 5]);
        lemma_digit_not_space(d[j - 5]);
    }
    assert(s[5 + dl] == ' ');
    assert(s[6 + dl] == '"');
    assert(s.last() == '"');
    assert forall|j: int| 6 + dl <= j < s.len() implies !is_space(s[j]) by {
        if j == 6 + dl || j == s.len() - 1 {
        } else {
            assert(s[j] == t[j - 7 - dl]);
        }
    }
    lemma_token_end_stops(s, 0, 4);
    lemma_token_end_stops(s, 5, 5 + dl);
    lemma_token_end_stops(s, 6 + dl, s.len() as int);
    assert(tokens_from(s, s.len() as int) =~= Seq::<Seq<char>>::empty());
    let q = s.subrange(6 + dl, s.len() as int);
    assert(tokens_from(s, 6 + dl) =~= seq![q] + tokens_from(s, s.len() as int));
    assert(tokens_from(s, 5 + dl) == tokens_from(s, 6 + dl));
    assert(tokens_from(s, 5) =~= seq![s.subrange(5, 5 + dl)] + tokens_from(s, 5 + dl));
    assert(tokens_from(s, 4) == tokens_from(s, 5));
    assert(tokens_from(s, 0) =~= seq![s.subrange(0, 4)] + tokens_from(s, 4));
    assert(s.subrange(0, 4) =~= "TYPE"@);
    assert(s.subrange(5, 5 + dl) =~= d);
    assert(q =~= seq!['"'] + t + seq!['"']);
    assert(tokens(s) =~= seq!["TYPE"@, d, q]);
    assert(spec_parse_usize(d) == Some(n));
    assert(tokens(s).skip(2) =~= seq![q]);
    assert(join_with(seq![q], ' ') == q);
    lemma_strip_single_quotes(t);
    assert(rest_text(tokens(s), 2) == t);
}

/// Round trip for the answer command with one quoted word: parsing `ANSWER`
/// followed by a quote-free, whitespace-free word in quotes yields exactly
/// `Answer` of that word.
pub proof fn lemma_parse_answer_round_trip(t: Seq<char>)
    requires
        t.len() > 0,
        forall|j: int| 0 <= j < t.len() ==> !is_space(#[trigger] t[j]) && t[j] != '"',
    ensures
        spec_parse("ANSWER \""@ + t + "\""@) == Ok::<SpecAction, SpecAgentError>(
            SpecAction::Answer(t),
        ),
{
    reveal_strlit("ANSWER \"");
    reveal_strlit("ANSWER");
    reveal_strlit("\"");
    reveal_strlit("CLICK");
    reveal_strlit("TYPE");
    let s = "ANSWER \""@ + t + "\""@;
    assert(s.len() == 9 + t.len());
    assert(s[0] == 'A' && s[1] == 'N' && s[2] == 'S' && s[3] == 'W' && s[4] == 'E' && s[5] == 'R'
        && s[6] == ' ' && s[7] == '"');
    assert(s.last() == '"');
    assert forall|j: int| 7 <= j < s.len() implies !is_space(s[j]) by {
        if j == 7 || j == s.len() - 1 {
        } else {
            assert(s[j] == t[j - 8]);
        }
    }
    assert forall|j: int| 0 <= j < 6 implies !is_space(s[j]) by {
        assert(s[j] == 'A' || s[j] == 'N' || s[j] == 'S' || s[j] == 'W' || s[j] == 'E' || s[j]
            == 'R');
    }
    lemma_token_end_stops(s, 0, 6);
    lemma_token_end_stops(s, 7, s.len() as int);
    assert(tokens_from(s, s.len() as int) =~= Seq::<Seq<char>>::empty());
    assert(tokens_from(s, 7) =~= seq![s.subrange(7, s.len() as int)] + tokens_from(
        s,
        s.len() as int,
    ));
    assert(tokens_from(s, 6) == tokens_from(s, 7));
    assert(tokens_from(s, 0) =~= seq![s.subrange(0, 6)] + tokens_from(s, 6));
    assert(s.subrange(0, 6) =~= "ANSWER"@);
    let q = s.subrange(7, s.len() as int);
    assert(q =~= seq!['"'] + t + seq!['"']);
    assert(tokens(s) =~= seq!["ANSWER"@, q]);
    assert(tokens(s).skip(1) =~= seq![q]);
    assert(join_with(seq![q], ' ') == q);
    lemma_strip_single_quotes(t);
    assert(rest_text(tokens(s), 1) == t);
}

/// Splits `s` into its whitespace-delimited tokens.
fn tokenize(s: &str) -> (v: Vec<String>)
    ensures
        v.deep_view() == tokens(s@),
{
    let n = s.unicode_len();
    let mut v: Vec<String> = Vec::new();
    let mut i: usize = 0;
    while i < n
        invariant
            0 <= i <= n,
            n == s@.len(),
            v.deep_view() + tokens_from(s@, i as int) == tokens(s@),
        decreases n - i,
    {
        if is_space_exec(s.get_char(i)) {
            proof {
                assert(tokens_from(s@, i as int) == tokens_from(s@, i + 1));
            }
            i = i + 1;
        } else {
            let ghost start = i as int;
            let mut j: usize = i + 1;
            while j < n && !is_space_exec(s.get_char(j))
                invariant
                    0 <= start < j <= n,
                    n == s@.len(),
                    token_end(s@, start) == token_end(s@, j as int),
                decreases n - j,
            {
                j = j + 1;
            }
            proof {
                assert(token_end(s@, start) == j as int);
            }
            let tok = s.substring_char(i, j);
            let ghost old_dv = v.deep_view();
            v.push(tok.to_owned());
            proof {
                assert(v.deep_view() =~= old_dv.push(s@.subrange(start, j as int)));
                assert(tokens_from(s@, start) == seq![s@.subrange(start, j as int)] + tokens_from(
                    s@,
                    j as int,
                ));
                assert(v.deep_view() + tokens_from(s@, j as int) =~= old_dv + tokens_from(
                    s@,
                    start,
                ));
            }
            i = j;
        }
    }
    proof {
        assert(tokens_from(s@, i as int) =~= Seq::<Seq<char>>::empty());
        assert(v.deep_view() =~= tokens(s@));
    }
    v
}

/// Whether `c` is Unicode white space.
fn is_space_exec(c: char) -> (r: bool)
    ensures
        r == is_space(c),
{
    c == ' ' || c == '\t' || c == '\n' || c == '\u{B}' || c == '\u{C}' || c == '\r' || c
        == '\u{85}' || c == '\u{A0}' || c == '\u{1680}' || c == '\u{2000}' || c == '\u{2001}' || c
        == '\u{2002}' || c == '\u{2003}' || c == '\u{2004}' || c == '\u{2005}' || c == '\u{2006}'
        || c == '\u{2007}' || c == '\u{2008}' || c == '\u{2009}' || c == '\u{200A}' || c
        == '\u{2028}' || c == '\u{2029}' || c == '\u{202F}' || c == '\u{205F}' || c == '\u{3000}'
}

/// Rejoins the tokens from position `start` on with single spaces.
fn join_tokens_from(ts: &Vec<String>, start: usize) -> (r: String)
    requires
        start <= ts@.len(),
    ensures
        r@ == join_with(ts.deep_view().skip(start as int), ' '),
{
    let ghost dv = ts.deep_view();
    let mut out = String::new();
    let mut i: usize = start;
    while i < ts.len()
        invariant
            start <= i <= ts@.len(),
            dv == ts.deep_view(),
            dv.len() == ts@.len(),
            out@ == join_with(dv.subrange(start as int, i as int), ' '),
        decreases ts@.len() - i,
    {
        proof {
            let parts = dv.subrange(start as int, i as int);
            lemma_join_with_push(parts, ' ', dv[i as int]);
            assert(dv.subrange(start as int, i + 1) =~= parts.push(dv[i as int]));
        }
        if i > start {
            out.append(" ");
            proof {
                reveal_strlit(" ");
                assert(" "@ =~= seq![' ']);
            }
        }
        out.append(ts[i].as_str());
        i = i + 1;
    }
    proof {
        assert(dv.subrange(start as int, dv.len() as int) =~= dv.skip(start as int));
    }
    out
}

/// Strips surrounding quote characters from both ends of `s`.
fn strip_quotes_exec(s: &str) -> (r: String)
    ensures
        r@ == strip_quotes(s@),
{
    let n = s.unicode_len();
    proof {
        assert(s@.subrange(0, n as int) =~= s@);
    }
    let mut a: usize = 0;
    while a < n && s.get_char(a) == '"'
        invariant
            0 <= a <= n,
            n == s@.len(),
            drop_leading_quotes(s@) == drop_leading_quotes(s@.subrange(a as int, n as int)),
        decreases n - a,
    {
        proof {
            assert(s@.subrange(a as int, n as int).drop_first() =~= s@.subrange(a + 1, n as int));
        }
        a = a + 1;
    }
    proof {
        assert(drop_leading_quotes(s@) == s@.subrange(a as int, n as int));
    }
    let mut b: usize = n;
    while b > a && s.get_char(b - 1) == '"'
        invariant
            a <= b <= n,
            n == s@.len(),
            drop_leading_quotes(s@) == s@.subrange(a as int, n as int),
            drop_trailing_quotes(s@.subrange(a as int, n as int)) == drop_trailing_quotes(
                s@.subrange(a as int, b as int),
            ),
        decreases b,
    {
        proof {
            assert(s@.subrange(a as int, b as int).drop_last() =~= s@.subrange(a as int, b - 1));
        }
        b = b - 1;
    }
    proof {
        assert(strip_quotes(s@) == s@.subrange(a as int, b as int));
    }
    let r = s.substring_char(a, b);
    r.to_owned()
}

impl Action {
    /// Parses one model reply into the action it commands, or the error that
    /// names the offending token.
    pub fn try_from(value: &str) -> (r: Result<Action, AgentError>)
        ensures
            ({
                let sp = spec_parse(value@);
                match r {
                    Ok(a) => sp matches Ok(v) && a@ == v,
                    Err(e) => sp matches Err(v) && e@ == v,
                }
            }),
    {
        let ts = tokenize(value);
        let ghost tss = tokens(value@);
        proof {
            assert(ts@.len() == tss.len());
        }
        if ts.len() == 0 {
            return Err(AgentError::NoCommand);
        }
        let cmd = &ts[0];
        proof {
            assert(cmd@ == tss[0]);
        }
        if str_eq(cmd.as_str(), "CLICK") {
            if ts.len() < 2 {
                return Err(AgentError::MissingId(cmd.clone()));
            }
            proof {
                assert(ts[1]@ == tss[1]);
            }
            match parse_usize(ts[1].as_str()) {
                Some(id) => Ok(Action::Click(id)),
                None => Err(AgentError::InvalidId(ts[1].clone())),
            }
        } else if str_eq(cmd.as_str(), "TYPE") {
            if ts.len() < 2 {
                return Err(AgentError::MissingId(cmd.clone()));
            }
            proof {
                assert(ts[1]@ == tss[1]);
            }
            match parse_usize(ts[1].as_str()) {
                Some(id) => {
                    let joined = join_tokens_from(&ts, 2);
                    let text = strip_quotes_exec(joined.as_str());
                    Ok(Action::Type(id, text))
                },
                None => Err(AgentError::InvalidId(ts[1].clone())),
            }
        } else if str_eq(cmd.as_str(), "ANSWER") {
            let joined = join_tokens_from(&ts, 1);
            let text = strip_quotes_exec(joined.as_str());
            Ok(Action::Answer(text))
        } else {
            Err(AgentError::UnknownCommand(cmd.clone()))
        }
    }
}

} // verus!
