//! The page summarizer: turns one enumeration of page elements into the
//! compact tagged markup sent to the model.
//!
//! Each element may contribute one line whose embedded id is the element's
//! zero-based position in the enumeration; elements that contribute nothing
//! are simply absent, and the order of the lines matches the input order.

use vstd::prelude::*;
use vstd::string::StrSliceExecFns;
use vstd::string::StringExecFns;

use crate::text::dec_digits;
use crate::text::join_with;
use crate::text::lemma_join_with_push;
use crate::text::push_dec;
use crate::text::str_eq;

verus! {

/// What the summarizer reads of one page element: the uppercase tag name,
/// the role-specific texts where the page offers them, and whether a link
/// element contains a heading.  A value of this type stands for one slot of
/// one enumeration snapshot; its slot id is its position there.
#[derive(Debug, Clone)]
pub struct PageElement {
    /// The element's tag name, uppercase (`"BUTTON"`, `"P"`, `"IMG"`, `"A"`,
    /// `"INPUT"`, or anything else).
    pub tag: String,
    /// The element's inner text, where the page reports one.
    pub inner_text: Option<String>,
    /// The `alt` attribute, where present.
    pub alt: Option<String>,
    /// The `href` attribute, where present.
    pub href: Option<String>,
    /// The `placeholder` attribute, where present.
    pub placeholder: Option<String>,
    /// Whether the element contains a heading element.  Links that do are
    /// skipped: they usually duplicate the heading they jump to.
    pub contains_heading: bool,
}

/// The summary line of a button.
pub open spec fn button_line(i: int, text: Seq<char>) -> Seq<char> {
    "<button id="@ + dec_digits(i as nat) + ">"@ + text + "</button>"@
}

/// The summary line of a paragraph.
pub open spec fn p_line(i: int, text: Seq<char>) -> Seq<char> {
    "<p id="@ + dec_digits(i as nat) + ">"@ + text + "</p>"@
}

/// The summary line of an image.
pub open spec fn img_line(i: int, alt: Seq<char>) -> Seq<char> {
    "<img id="@ + dec_digits(i as nat) + " alt=\""@ + alt + "\"/>"@
}

/// The summary line of a link.
pub open spec fn link_line(i: int, href: Seq<char>, text: Seq<char>) -> Seq<char> {
    "<link id="@ + dec_digits(i as nat) + " href="@ + href + ">"@ + text + "<link>"@
}

/// The summary line of an input field.
pub open spec fn input_line(i: int, placeholder: Seq<char>) -> Seq<char> {
    "<input id="@ + dec_digits(i as nat) + ">"@ + placeholder + "</input>"@
}

/// The line the element in slot `i` contributes, or `None` when it is
/// skipped.  Buttons and paragraphs need non-empty inner text (paragraphs
/// also the inclusion flag); images need an alt text; links need inner text
/// and an href and must not contain a heading; inputs need a placeholder.
pub open spec fn line_of(e: PageElement, i: int, include_p: bool) -> Option<Seq<char>> {
    if e.tag@ == "BUTTON"@ {
        match e.inner_text {
            Some(t) => if t@.len() > 0 {
                Some(button_line(i, t@))
            } else {
                None
            },
            None => None,
        }
    } else if e.tag@ == "P"@ {
        if include_p {
            match e.inner_text {
                Some(t) => if t@.len() > 0 {
                    Some(p_line(i, t@))
                } else {
                    None
                },
                None => None,
            }
        } else {
            None
        }
    } else if e.tag@ == "IMG"@ {
        match e.alt {
            Some(a) => Some(img_line(i, a@)),
            None => None,
        }
    } else if e.tag@ == "A"@ {
        if e.contains_heading {
            None
        } else {
            match (e.inner_text, e.href) {
                (Some(t), Some(h)) => Some(link_line(i, h@, t@)),
                _ => None,
            }
        }
    } else if e.tag@ == "INPUT"@ {
        match e.placeholder {
            Some(p) => Some(input_line(i, p@)),
            None => None,
        }
    } else {
        None
    }
}

/// A line as a one-element sequence, a skip as an empty one.
pub open spec fn opt_line_seq(o: Option<Seq<char>>) -> Seq<Seq<char>> {
    match o {
        Some(l) => seq![l],
        None => Seq::empty(),
    }
}

/// The lines contributed by the first `n` elements, in input order.
pub open spec fn lines_upto(es: Seq<PageElement>, include_p: bool, n: int) -> Seq<Seq<char>>
    decreases n,
{
    if n <= 0 {
        Seq::empty()
    } else {
        lines_upto(es, include_p, n - 1) + opt_line_seq(line_of(es[n - 1], n - 1, include_p))
    }
}

/// All lines of the summary, in input order.
pub open spec fn summary_lines(es: Seq<PageElement>, include_p: bool) -> Seq<Seq<char>> {
    lines_upto(es, include_p, es.len() as int)
}

/// The whole summary: the lines joined with newlines.
pub open spec fn summary_of(es: Seq<PageElement>, include_p: bool) -> Seq<char> {
    join_with(summary_lines(es, include_p), '\n')
}

/// At most one line per element.
proof fn lemma_lines_upto_count(es: Seq<PageElement>, include_p: bool, n: int)
    requires
        0 <= n,
    ensures
        lines_upto(es, include_p, n).len() <= n,
    decreases n,
{
    if n > 0 {
        lemma_lines_upto_count(es, include_p, n - 1);
    }
}

/// The summary never holds more lines than the enumeration holds elements.
pub proof fn lemma_summary_line_count(es: Seq<PageElement>, include_p: bool)
    ensures
        summary_lines(es, include_p).len() <= es.len(),
{
    lemma_lines_upto_count(es, include_p, es.len() as int);
}

proof fn lemma_lines_upto_sources(es: Seq<PageElement>, include_p: bool, n: int)
    requires
        0 <= n <= es.len(),
    ensures
        forall|j: int|
            0 <= j < lines_upto(es, include_p, n).len() ==> exists|i: int|
                0 <= i < n && #[trigger] line_of(es[i], i, include_p) == Some(
                    #[trigger] lines_upto(es, include_p, n)[j],
                ),
    decreases n,
{
    if n > 0 {
        lemma_lines_upto_sources(es, include_p, n - 1);
        let prev = lines_upto(es, include_p, n - 1);
        let cur = lines_upto(es, include_p, n);
        assert forall|j: int| 0 <= j < cur.len() implies exists|i: int|
            0 <= i < n && #[trigger] line_of(es[i], i, include_p) == Some(#[trigger] cur[j]) by {
            if j < prev.len() {
                assert(cur[j] == prev[j]);
                let i0 = choose|i: int|
                    0 <= i < n - 1 && #[trigger] line_of(es[i], i, include_p) == Some(prev[j]);
                assert(0 <= i0 < n && line_of(es[i0], i0, include_p) == Some(cur[j]));
            } else {
                assert(line_of(es[n - 1], n - 1, include_p) == Some(cur[j]));
            }
        }
    }
}

/// Every emitted line is the line of some element at that element's own
/// index, so the id embedded in it is that element's position in the input.
pub proof fn lemma_summary_lines_sources(es: Seq<PageElement>, include_p: bool)
    ensures
        forall|j: int|
            0 <= j < summary_lines(es, include_p).len() ==> exists|i: int|
                0 <= i < es.len() && #[trigger] line_of(es[i], i, include_p) == Some(
                    #[trigger] summary_lines(es, include_p)[j],
                ),
{
    lemma_lines_upto_sources(es, include_p, es.len() as int);
}

/// The line of the element in slot `i` embeds the decimal numeral of `i`
/// itself: it splits as some prefix, then `dec_digits(i)`, then a suffix.
pub proof fn lemma_line_embeds_id(e: PageElement, i: int, include_p: bool)
    ensures
        line_of(e, i, include_p) matches Some(l) ==> exists|pre: Seq<char>, post: Seq<char>|
            l == #[trigger] (pre + dec_digits(i as nat) + post),
{
    if line_of(e, i, include_p) is Some {
        let l = line_of(e, i, include_p)->Some_0;
        let d = dec_digits(i as nat);
        if e.tag@ == "BUTTON"@ {
            let t = e.inner_text->Some_0@;
            let pre = "<button id="@;
            let post = ">"@ + t + "</button>"@;
            assert(l =~= pre + d + post);
        } else if e.tag@ == "P"@ {
            let t = e.inner_text->Some_0@;
            let pre = "<p id="@;
            let post = ">"@ + t + "</p>"@;
            assert(l =~= pre + d + post);
        } else if e.tag@ == "IMG"@ {
            let a = e.alt->Some_0@;
            let pre = "<img id="@;
            let post = " alt=\""@ + a + "\"/>"@;
            assert(l =~= pre + d + post);
        } else if e.tag@ == "A"@ {
            let t = e.inner_text->Some_0@;
            let h = e.href->Some_0@;
            let pre = "<link id="@;
            let post = " href="@ + h + ">"@ + t + "<link>"@;
            assert(l =~= pre + d + post);
        } else {
            let p = e.placeholder->Some_0@;
            let pre = "<input id="@;
            let post = ">"@ + p + "</input>"@;
            assert(l =~= pre + d + post);
        }
    }
}

/// Builds the line the element in slot `i` contributes, if any.
fn line_for(e: &PageElement, i: usize, include_p: bool) -> (r: Option<String>)
    ensures
        match r {
            Some(l) => line_of(*e, i as int, include_p) == Some(l@),
            None => line_of(*e, i as int, include_p) is None,
        },
{
    if str_eq(e.tag.as_str(), "BUTTON") {
        match &e.inner_text {
            Some(t) => {
                if t.as_str().is_empty() {
                    None
                } else {
                    let mut out = String::new();
                    out.append("<button id=");
                    push_dec(&mut out, i);
                    out.append(">");
                    out.append(t.as_str());
                    out.append("</button>");
                    proof {
                        assert(out@ =~= button_line(i as int, t@));
                    }
                    Some(out)
                }
            },
            None => None,
        }
    } else if str_eq(e.tag.as_str(), "P") {
        if !include_p {
            return None;
        }
        match &e.inner_text {
            Some(t) => {
                if t.as_str().is_empty() {
                    None
                } else {
                    let mut out = String::new();
                    out.append("<p id=");
                    push_dec(&mut out, i);
                    out.append(">");
                    out.append(t.as_str());
                    out.append("</p>");
                    proof {
                        assert(out@ =~= p_line(i as int, t@));
                    }
                    Some(out)
                }
            },
            None => None,
        }
    } else if str_eq(e.tag.as_str(), "IMG") {
        match &e.alt {
            Some(a) => {
                let mut out = String::new();
                out.append("<img id=");
                push_dec(&mut out, i);
                out.append(" alt=\"");
                out.append(a.as_str());
                out.append("\"/>");
                proof {
                    assert(out@ =~= img_line(i as int, a@));
                }
                Some(out)
            },
            None => None,
        }
    } else if str_eq(e.tag.as_str(), "A") {
        if e.contains_heading {
            return None;
        }
        match (&e.inner_text, &e.href) {
            (Some(t), Some(h)) => {
                let mut out = String::new();
                out.append("<link id=");
                push_dec(&mut out, i);
                out.append(" href=");
                out.append(h.as_str());
                out.append(">");
                out.append(t.as_str());
                out.append("<link>");
                proof {
                    assert(out@ =~= link_line(i as int, h@, t@));
                }
                Some(out)
            },
            _ => None,
        }
    } else if str_eq(e.tag.as_str(), "INPUT") {
        match &e.placeholder {
            Some(p) => {
                let mut out = String::new();
                out.append("<input id=");
                push_dec(&mut out, i);
                out.append(">");
                out.append(p.as_str());
                out.append("</input>");
                proof {
                    assert(out@ =~= input_line(i as int, p@));
                }
                Some(out)
            },
            None => None,
        }
    } else {
        None
    }
}

/// Translates one element enumeration into the newline-joined summary that
/// the model reads.  Slot ids count every element, emitted or skipped;
/// `should_include_p` controls whether paragraph text is included.
pub fn translate(elements: &Vec<PageElement>, should_include_p: bool) -> (r: String)
    ensures
        r@ == summary_of(elements@, should_include_p),
{
    let mut out = String::new();
    let mut emitted = false;
    let mut i: usize = 0;
    while i < elements.len()
        invariant
            0 <= i <= elements@.len(),
            out@ == join_with(lines_upto(elements@, should_include_p, i as int), '\n'),
            emitted <==> lines_upto(elements@, should_include_p, i as int).len() > 0,
        decreases elements@.len() - i,
    {
        let ghost prev = lines_upto(elements@, should_include_p, i as int);
        match line_for(&elements[i], i, should_include_p) {
            Some(line) => {
                proof {
                    lemma_join_with_push(prev, '\n', line@);
                    assert(lines_upto(elements@, should_include_p, i + 1) =~= prev.push(line@));
                }
                if emitted {
                    out.append("\n");
                    proof {
                        reveal_strlit("\n");
                        assert("\n"@ =~= seq!['\n']);
                    }
                }
                out.append(line.as_str());
                emitted = true;
            },
            None => {
                proof {
                    assert(lines_upto(elements@, should_include_p, i + 1) =~= prev);
                }
            },
        }
        i = i + 1;
    }
    out
}

} // verus!
