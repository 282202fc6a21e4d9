//! Message text as HTML: Markdown rendered with pulldown-cmark, then cleaned
//! with ammonia down to the tags and attributes that message blocks use.
use vstd::prelude::*;

use pulldown_cmark::{html, Options, Parser};

verus! {

/// The HTML that pulldown-cmark renders for `text` with the strikethrough,
/// table, task-list and heading-attribute extensions switched on or off.
pub uninterp spec fn markdown_html(
    text: Seq<char>,
    strikethrough: bool,
    tables: bool,
    tasklists: bool,
    heading_attributes: bool,
) -> Seq<char>;

/// The HTML that ammonia's default cleaner leaves of `html` once the tags
/// `tags` and the attributes `attributes` (on any tag) are allowed too.
pub uninterp spec fn sanitized_html(
    html: Seq<char>,
    tags: Seq<Seq<char>>,
    attributes: Seq<Seq<char>>,
) -> Seq<char>;

/// `pulldown_cmark::html::push_html` over `Parser::new_ext(text, options)`
/// into an empty string, with the four extensions set as given: the result
/// is named by `markdown_html` of the arguments and nothing more is claimed
/// of it.
#[verifier::external_body]
fn render_markdown(
    text: &str,
    strikethrough: bool,
    tables: bool,
    tasklists: bool,
    heading_attributes: bool,
) -> (r: String)
    ensures
        r@ == markdown_html(text@, strikethrough, tables, tasklists, heading_attributes),
{
    let mut options = Options::empty();
    options.set(Options::ENABLE_STRIKETHROUGH, strikethrough);
    options.set(Options::ENABLE_TABLES, tables);
    options.set(Options::ENABLE_TASKLISTS, tasklists);
    options.set(Options::ENABLE_HEADING_ATTRIBUTES, heading_attributes);
    let mut out = String::new();
    html::push_html(&mut out, Parser::new_ext(text, options));
    out
}

/// The views of a list of string slices.
pub open spec fn str_views(v: Seq<&str>) -> Seq<Seq<char>> {
    v.map_values(|s: &str| s@)
}

/// `ammonia::Builder::default()` with `add_tags(tags)` and
/// `add_generic_attributes(attributes)`, then `clean(html)` turned into a
/// string: the result is named by `sanitized_html` of the arguments. The
/// cleaner asserts that `script` and `style`, whose content it removes, are
/// not allowed tags, and, as it adds `rel` to links, that `rel` is not an
/// allowed attribute: those inputs are left out.
#[verifier::external_body]
fn sanitize_html(html: &str, tags: &Vec<&str>, attributes: &Vec<&str>) -> (r: String)
    requires
        forall|i: int|
            0 <= i < tags@.len() ==> #[trigger] tags@[i]@ != "script"@ && tags@[i]@ != "style"@,
        forall|i: int| 0 <= i < attributes@.len() ==> #[trigger] attributes@[i]@ != "rel"@,
    ensures
        r@ == sanitized_html(html@, str_views(tags@), str_views(attributes@)),
{
    let mut builder = ammonia::Builder::default();
    builder.add_tags(tags.iter().copied());
    builder.add_generic_attributes(attributes.iter().copied());
    builder.clean(html).to_string()
}

/// The tags that message blocks keep besides ammonia's defaults.
pub open spec fn block_tags() -> Seq<Seq<char>> {
    seq![
        "h1"@,
        "h2"@,
        "h3"@,
        "h4"@,
        "h5"@,
        "h6"@,
        "p"@,
        "pre"@,
        "code"@,
        "blockquote"@,
        "ul"@,
        "ol"@,
        "li"@,
        "strong"@,
        "em"@,
        "a"@,
        "table"@,
        "thead"@,
        "tbody"@,
        "tr"@,
        "th"@,
        "td"@,
        "hr"@,
    ]
}

/// The HTML of a message block: the Markdown rendered with all four
/// extensions, then cleaned with the block tags and the `class` attribute
/// allowed.
pub open spec fn message_html(text: Seq<char>) -> Seq<char> {
    sanitized_html(markdown_html(text, true, true, true, true), block_tags(), seq!["class"@])
}

/// Renders message text as the HTML of a message block.
pub fn render_markdown_html(text: &str) -> (r: String)
    ensures
        r@ == message_html(text@),
{
    let rendered = render_markdown(text, true, true, true, true);
    let tags: Vec<&str> = vec![
        "h1",
        "h2",
        "h3",
        "h4",
        "h5",
        "h6",
        "p",
        "pre",
        "code",
        "blockquote",
        "ul",
        "ol",
        "li",
        "strong",
        "em",
        "a",
        "table",
        "thead",
        "tbody",
        "tr",
        "th",
        "td",
        "hr",
    ];
    let attributes: Vec<&str> = vec!["class"];
    proof {
        reveal_strlit("h1");
        reveal_strlit("h2");
        reveal_strlit("h3");
        reveal_strlit("h4");
        reveal_strlit("h5");
        reveal_strlit("h6");
        reveal_strlit("p");
        reveal_strlit("pre");
        reveal_strlit("code");
        reveal_strlit("blockquote");
        reveal_strlit("ul");
        reveal_strlit("ol");
        reveal_strlit("li");
        reveal_strlit("strong");
        reveal_strlit("em");
        reveal_strlit("a");
        reveal_strlit("table");
        reveal_strlit("thead");
        reveal_strlit("tbody");
        reveal_strlit("tr");
        reveal_strlit("th");
        reveal_strlit("td");
        reveal_strlit("hr");
        reveal_strlit("class");
        reveal_strlit("script");
        reveal_strlit("style");
        reveal_strlit("rel");
        assert(str_views(tags@) =~= block_tags());
        assert(str_views(attributes@) =~= seq!["class"@]);
        assert forall|i: int| 0 <= i < tags@.len() implies #[trigger] tags@[i]@ != "script"@
            && tags@[i]@ != "style"@ by {
            assert(tags@[i]@ == block_tags()[i]);
            let t = block_tags()[i];
            if t.len() == 6 {
                assert(t[1] != "script"@[1]);
            }
            if t.len() == 5 {
                assert(t[0] != "style"@[0]);
            }
        }
        assert(attributes@[0]@ != "rel"@) by {
            assert(attributes@[0]@.len() != "rel"@.len());
        }
    }
    sanitize_html(rendered.as_str(), &tags, &attributes)
}

} // verus!
