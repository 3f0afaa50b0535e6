//! The Markdown pipeline: rendering to sanitized HTML, plain-text
//! extraction, and wikilink extraction.

use vstd::prelude::*;
use vstd::string::StrSliceExecFns;
use vstd::string::StringExecFns;
use crate::string_utils::trim_text;
use crate::string_utils::trim_whitespace;

verus! {

/// The HTML that the Markdown renderer emits for a text, with the
/// tables, footnotes, strikethrough and task-list extensions enabled;
/// a function of the text alone.
pub uninterp spec fn html_of(md: Seq<char>) -> Seq<char>;

/// What the HTML sanitizer keeps of an HTML fragment; a function of the
/// fragment alone.
pub uninterp spec fn clean_html_of(html: Seq<char>) -> Seq<char>;

/// Relies on pulldown_cmark's `Parser::new_ext` and `html::push_html`:
/// emits HTML for the Markdown text, with the tables, footnotes,
/// strikethrough and task-list options enabled; deterministic in the
/// input text.
#[verifier::external_body]
fn markdown_to_html(content: &str) -> (r: String)
    ensures
        r@ == html_of(content@),
{
    let mut options = pulldown_cmark::Options::empty();
    options.insert(pulldown_cmark::Options::ENABLE_TABLES);
    options.insert(pulldown_cmark::Options::ENABLE_FOOTNOTES);
    options.insert(pulldown_cmark::Options::ENABLE_STRIKETHROUGH);
    options.insert(pulldown_cmark::Options::ENABLE_TASKLISTS);
    let parser = pulldown_cmark::Parser::new_ext(content, options);
    let mut out = String::new();
    pulldown_cmark::html::push_html(&mut out, parser);
    out
}

/// Relies on ammonia::clean: sanitizes an HTML fragment with the default
/// allowlist, which removes script-executing constructs and disallowed
/// tags and attributes; deterministic in the fragment.
#[verifier::external_body]
fn clean_html(html: &str) -> (r: String)
    ensures
        r@ == clean_html_of(html@),
{
    ammonia::clean(html)
}

/// Sanitizes HTML to prevent cross-site scripting: script-executing
/// constructs and disallowed tags and attributes are removed.
pub fn sanitize_html(html: &str) -> (r: String)
    ensures
        r@ == clean_html_of(html@),
{
    clean_html(html)
}

/// Renders Markdown to HTML and sanitizes the result, so the output is
/// safe to inject into a rendering surface without further escaping.
/// Malformed Markdown degrades to best-effort HTML; there is no error
/// path.
pub fn render_markdown(content: &str) -> (r: String)
    ensures
        r@ == clean_html_of(html_of(content@)),
{
    let html = markdown_to_html(content);
    sanitize_html(html.as_str())
}

/// One Markdown parse event, reduced to what plain-text extraction
/// distinguishes.
pub enum MdEvent {
    /// The end of a heading.
    HeadingEnd,
    /// A run of plain text.
    Text(String),
    /// Inline code.
    Code(String),
    /// A soft or hard line break.
    LineBreak,
    /// Any other event.
    Other,
}

/// The events the Markdown parser yields for a text, in order, reduced
/// to the shape plain-text extraction reads; a function of the text
/// alone.
pub uninterp spec fn md_events_of(md: Seq<char>) -> Seq<MdEvent>;

/// Relies on pulldown_cmark's `Parser::new`: yields the parse events of
/// the text in document order; deterministic in the input text. Each
/// event is reduced to the variant it falls under, its text moved over.
#[verifier::external_body]
fn markdown_events(content: &str) -> (r: Vec<MdEvent>)
    ensures
        r@ == md_events_of(content@),
{
    pulldown_cmark::Parser::new(content)
        .map(|ev| match ev {
            pulldown_cmark::Event::End(pulldown_cmark::TagEnd::Heading(_)) => MdEvent::HeadingEnd,
            pulldown_cmark::Event::Text(t) => MdEvent::Text(t.to_string()),
            pulldown_cmark::Event::Code(c) => MdEvent::Code(c.to_string()),
            pulldown_cmark::Event::SoftBreak => MdEvent::LineBreak,
            pulldown_cmark::Event::HardBreak => MdEvent::LineBreak,
            _ => MdEvent::Other,
        })
        .collect()
}

/// The plain text one event contributes: a newline for heading ends and
/// line breaks, the text itself for text and code, nothing otherwise.
pub open spec fn event_text(e: MdEvent) -> Seq<char> {
    match e {
        MdEvent::HeadingEnd => seq!['\n'],
        MdEvent::Text(t) => t@,
        MdEvent::Code(c) => c@,
        MdEvent::LineBreak => seq!['\n'],
        MdEvent::Other => Seq::empty(),
    }
}

/// The concatenated plain text of a sequence of events.
pub open spec fn events_plain_text(evs: Seq<MdEvent>) -> Seq<char>
    decreases evs.len(),
{
    if evs.len() == 0 {
        Seq::empty()
    } else {
        events_plain_text(evs.drop_last()) + event_text(evs.last())
    }
}

/// Extracts the text-only content of Markdown: heading boundaries and
/// line breaks become newlines, text runs and inline code are kept, and
/// all other formatting is discarded.
pub fn extract_plain_text(content: &str) -> (r: String)
    ensures
        r@ == events_plain_text(md_events_of(content@)),
{
    let events = markdown_events(content);
    let mut out = String::new();
    let mut i: usize = 0;
    while i < events.len()
        invariant
            i <= events@.len(),
            out@ == events_plain_text(events@.take(i as int)),
        decreases events@.len() - i,
    {
        proof {
            assert(events@.take(i + 1).drop_last() =~= events@.take(i as int));
            assert(events@.take(i + 1).last() == events@[i as int]);
        }
        let ghost pre = out@;
        match &events[i] {
            MdEvent::HeadingEnd => out.push('\n'),
            MdEvent::Text(t) => out.append(t.as_str()),
            MdEvent::Code(c) => out.append(c.as_str()),
            MdEvent::LineBreak => out.push('\n'),
            MdEvent::Other => {},
        }
        proof {
            assert(out@ =~= pre + event_text(events@[i as int]));
        }
        i += 1;
    }
    proof {
        assert(events@.take(events@.len() as int) =~= events@);
    }
    out
}

/// The longest prefix of `s` free of `]`.
pub open spec fn non_bracket_prefix(s: Seq<char>) -> Seq<char>
    decreases s.len(),
{
    if s.len() == 0 || s.first() == ']' {
        Seq::empty()
    } else {
        seq![s.first()] + non_bracket_prefix(s.drop_first())
    }
}

/// The non-bracket prefix is no longer than the string, and non-empty
/// exactly when the string starts with something other than `]`.
pub proof fn lemma_non_bracket_prefix_len(s: Seq<char>)
    ensures
        non_bracket_prefix(s).len() <= s.len(),
        s.len() > 0 && s.first() != ']' ==> non_bracket_prefix(s).len() >= 1,
    decreases s.len(),
{
    if s.len() > 0 && s.first() != ']' {
        lemma_non_bracket_prefix_len(s.drop_first());
    }
}

/// Whether a wikilink `[[text]]` stands at the head of `s`: two opening
/// brackets, one or more characters free of `]`, then two closing
/// brackets.
pub open spec fn link_at_head(s: Seq<char>) -> bool {
    let k = non_bracket_prefix(s.skip(2)).len() as int;
    &&& s.len() >= 5
    &&& s[0] == '['
    &&& s[1] == '['
    &&& k >= 1
    &&& 3 + k < s.len()
    &&& s[2 + k] == ']'
    &&& s[3 + k] == ']'
}

/// The wikilinks of `s`: the trimmed inner text of each `[[...]]`
/// occurrence, leftmost first, scanning on after each match, duplicates
/// preserved.
pub open spec fn links_text(s: Seq<char>) -> Seq<Seq<char>>
    decreases s.len(),
    via links_text_decreases
{
    if s.len() == 0 {
        Seq::empty()
    } else if link_at_head(s) {
        let inner = non_bracket_prefix(s.skip(2));
        seq![trim_text(inner)] + links_text(s.skip(4 + inner.len() as int))
    } else {
        links_text(s.drop_first())
    }
}

#[via_fn]
proof fn links_text_decreases(s: Seq<char>) {
    if s.len() > 0 && link_at_head(s) {
        lemma_non_bracket_prefix_len(s.skip(2));
    }
}

/// Extracts the wikilinks (`[[link]]`) of a Markdown text: the trimmed
/// inner text of each occurrence, in document order, duplicates
/// preserved.
pub fn extract_links(content: &str) -> (r: Vec<String>)
    ensures
        r.deep_view() == links_text(content@),
{
    let len = content.unicode_len();
    let mut r: Vec<String> = Vec::new();
    let mut i: usize = 0;
    proof {
        assert(r.deep_view() =~= Seq::<Seq<char>>::empty());
        assert(content@.skip(0) =~= content@);
        assert(r.deep_view() + links_text(content@) =~= links_text(content@));
    }
    while i < len
        invariant
            i <= len,
            len == content@.len(),
            r.deep_view() + links_text(content@.skip(i as int)) == links_text(content@),
        decreases len - i,
    {
        let ghost tail = content@.skip(i as int);
        proof {
            assert(tail.first() == content@[i as int]);
            assert(tail.drop_first() =~= content@.skip(i + 1));
        }
        let mut matched = false;
        if content.get_char(i) == '[' && i + 1 < len && content.get_char(i + 1) == '[' {
            proof {
                assert(tail[1] == content@[i + 1]);
            }
            // scan the inner text: every character up to the first `]`
            let mut j = i + 2;
            let mut inner = String::new();
            while j < len && content.get_char(j) != ']'
                invariant
                    i + 2 <= j <= len,
                    len == content@.len(),
                    inner@.len() == j - i - 2,
                    inner@ + non_bracket_prefix(content@.skip(j as int)) == non_bracket_prefix(
                        content@.skip(i + 2),
                    ),
                decreases len - j,
            {
                let c2 = content.get_char(j);
                proof {
                    assert(content@.skip(j as int).first() == content@[j as int]);
                    assert(content@.skip(j as int).drop_first() =~= content@.skip(j + 1));
                    assert(inner@.push(content@[j as int]) + non_bracket_prefix(
                        content@.skip(j + 1),
                    ) =~= inner@ + (seq![content@[j as int]] + non_bracket_prefix(
                        content@.skip(j + 1),
                    )));
                }
                inner.push(c2);
                j += 1;
            }
            proof {
                if j < len {
                    assert(content@.skip(j as int).first() == content@[j as int]);
                } else {
                    assert(content@.skip(j as int) =~= Seq::<char>::empty());
                }
                assert(non_bracket_prefix(content@.skip(j as int)) =~= Seq::<char>::empty());
                assert(inner@ =~= non_bracket_prefix(content@.skip(i + 2)));
                assert(tail.skip(2) =~= content@.skip(i + 2));
            }
            if j > i + 2 && j < len && j + 1 < len && content.get_char(j) == ']'
                && content.get_char(j + 1) == ']' {
                proof {
                    let k = non_bracket_prefix(tail.skip(2)).len() as int;
                    assert(k == j - i - 2);
                    assert(tail[2 + k] == content@[j as int]);
                    assert(tail[3 + k] == content@[j + 1]);
                    assert(link_at_head(tail));
                    assert(tail.skip(4 + k) =~= content@.skip(j + 2));
                }
                let text = trim_whitespace(inner.as_str());
                let ghost pre = r.deep_view();
                r.push(text);
                proof {
                    assert(r.deep_view() =~= pre.push(r@[r@.len() - 1].deep_view()));
                    assert(pre.push(trim_text(non_bracket_prefix(tail.skip(2)))) + links_text(
                        content@.skip(j + 2),
                    ) =~= pre + (seq![trim_text(non_bracket_prefix(tail.skip(2)))] + links_text(
                        content@.skip(j + 2),
                    )));
                }
                i = j + 2;
                matched = true;
            } else {
                proof {
                    let k = non_bracket_prefix(tail.skip(2)).len() as int;
                    assert(k == j - i - 2);
                    if k >= 1 && 3 + k < tail.len() as int {
                        assert(tail[2 + k] == content@[j as int]);
                        assert(tail[3 + k] == content@[j + 1]);
                        assert(j < len);
                        assert(content@[j as int] == ']');
                    }
                    assert(!link_at_head(tail));
                }
            }
        } else {
            proof {
                if tail.len() >= 5 && tail[0] == '[' && tail[1] == '[' {
                    assert(content@[i + 1] == tail[1]);
                    assert(i + 1 < len);
                }
                assert(!link_at_head(tail));
            }
        }
        if !matched {
            i += 1;
        }
    }
    proof {
        assert(content@.skip(len as int) =~= Seq::<char>::empty());
        assert(r.deep_view() + links_text(content@.skip(len as int)) =~= r.deep_view());
    }
    r
}

} // verus!
