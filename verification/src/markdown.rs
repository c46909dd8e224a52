//! Markdown to sanitised HTML with classed syntax highlighting.
//!
//! The pipeline: pulldown-cmark parses the page with all extensions
//! enabled; the text of each fenced code block is replaced by a
//! pre-highlighted HTML fragment whose tokens carry `cbsh-`-prefixed
//! scope classes; the folded HTML is sanitised by ammonia with the
//! `data-rel` attribute and exactly the emitted span classes allowed.

use pulldown_cmark::html::push_html;
use pulldown_cmark::{CodeBlockKind, CowStr, Event, Parser, Tag};
use vstd::prelude::*;
use vstd::string::*;

use crate::text::{split_seq, split_str, views_of};

verus! {

/// One fenced code block: its declared language and its text.
#[derive(Debug)]
pub struct FencedBlock {
    pub lang: String,
    pub code: String,
}

/// The (language, text) pairs of the fenced code blocks of a Markdown
/// document, in order, as pulldown-cmark delivers them.
pub uninterp spec fn fenced_blocks_of(md: Seq<char>) -> Seq<(Seq<char>, Seq<char>)>;

/// The HTML that pulldown-cmark folds a document to when the text of its
/// i-th fenced code block is replaced by `replacements[i]`, taken as
/// literal HTML.
pub uninterp spec fn md_html_with_of(md: Seq<char>, replacements: Seq<Seq<char>>) -> Seq<char>;

/// What ammonia leaves of `html` when, beyond its default allow-list,
/// the generic attribute `generic_attr` is allowed on every element and
/// the classes in `span_classes` are allowed on `span`.
pub uninterp spec fn clean_of(
    html: Seq<char>,
    generic_attr: Seq<char>,
    span_classes: Set<Seq<char>>,
) -> Seq<char>;

/// The dotted scope strings that syntect's parser pushes while reading
/// `code` under the grammar selected by `lang` (the plain-text grammar
/// when `lang` names none).
pub uninterp spec fn scopes_of(code: Seq<char>, lang: Seq<char>) -> Seq<Seq<char>>;

/// The HTML fragment syntect's classed generator produces for `code`
/// under `lang`, each token in a `span` whose classes are the scope
/// atoms prefixed with `prefix`, line by line.
pub uninterp spec fn classed_html_of(code: Seq<char>, lang: Seq<char>, prefix: Seq<char>) -> Seq<
    char,
>;

/// Relies on pulldown_cmark::Parser::new_ext with all extensions: the
/// fenced code blocks of the event stream, in order; a block's language
/// is recorded at its opening tag and consumed by the following text
/// event.  `md_render_with` below carries the same pairing over the same
/// stream; the two must stay in lockstep, or the spliced fragments land
/// on the wrong blocks.
#[verifier::external_body]
fn md_fenced_blocks(md: &str) -> (r: Vec<FencedBlock>)
    ensures
        r@.map_values(|b: FencedBlock| (b.lang@, b.code@)) == fenced_blocks_of(md@),
{
    let mut out = Vec::new();
    let mut lang: Option<String> = None;
    for e in Parser::new_ext(md, pulldown_cmark::Options::all()) {
        match e {
            Event::Start(Tag::CodeBlock(CodeBlockKind::Fenced(l))) => lang = Some(l.into_string()),
            Event::Text(t) => if let Some(l) = lang.take() {
                out.push(FencedBlock { lang: l, code: t.into_string() });
            },
            _ => {},
        }
    }
    out
}

/// Relies on pulldown_cmark::Parser::new_ext and html::push_html: folds
/// the event stream to HTML after replacing the text of the i-th fenced
/// code block by `replacements[i]` as a literal HTML event.  The
/// open-fence/next-text pairing mirrors `md_fenced_blocks` above, which
/// numbers the blocks; the two must stay in lockstep.
#[verifier::external_body]
fn md_render_with(md: &str, replacements: &Vec<String>) -> (r: String)
    ensures
        r@ == md_html_with_of(md@, views_of(replacements@)),
{
    let mut i: usize = 0;
    let mut open = false;
    let events = Parser::new_ext(md, pulldown_cmark::Options::all()).map(|e| match e {
        Event::Start(Tag::CodeBlock(CodeBlockKind::Fenced(_))) => { open = true; e },
        Event::Text(t) if open && i < replacements.len() => {
            i += 1;
            open = false;
            Event::Html(CowStr::from(replacements[i - 1].clone()))
        },
        _ => e,
    });
    let mut html = String::new();
    push_html(&mut html, events);
    html
}

/// Relies on ammonia::Builder: the default allow-list, plus the generic
/// attribute `generic_attr` on every element, plus the classes in
/// `span_classes` on `span` elements.  `clean` asserts that the generic
/// attributes name neither `rel` (the default link rel is set) nor
/// `class` (a `span` class allow-list is installed), so those two names
/// are excluded here.
#[verifier::external_body]
fn sanitize_html(html: &str, generic_attr: &str, span_classes: &Vec<String>) -> (r: String)
    requires
        generic_attr@ != "class"@,
        generic_attr@ != "rel"@,
    ensures
        r@ == clean_of(html@, generic_attr@, views_of(span_classes@).to_set()),
{
    let attrs = [generic_attr];
    let mut builder = ammonia::Builder::new();
    builder.add_generic_attributes(&attrs);
    builder.add_allowed_classes("span", span_classes.iter().map(|c| c.as_str()));
    builder.clean(html).to_string()
}

/// Relies on syntect::parsing::ParseState over the grammar selected by
/// `lang` (plain text as fallback): the scope strings pushed while
/// parsing `code` line by line.
#[verifier::external_body]
fn syntect_scopes(code: &str, lang: &str) -> (r: Vec<String>)
    ensures
        views_of(r@) == scopes_of(code@, lang@),
{
    let ss = syntect::parsing::SyntaxSet::load_defaults_newlines();
    let syntax = ss.find_syntax_by_token(lang).unwrap_or_else(|| ss.find_syntax_plain_text());
    let mut parser = syntect::parsing::ParseState::new(syntax);
    let mut out = Vec::new();
    for line in syntect::util::LinesWithEndings::from(code) {
        for (_, op) in parser.parse_line(line, &ss) {
            if let syntect::parsing::ScopeStackOp::Push(scope) = op {
                out.push(scope.build_string());
            }
        }
    }
    out
}

/// Relies on syntect::html::ClassedHTMLGenerator with spaced prefixed
/// class style: the escaped, highlighted HTML of `code` under the
/// grammar selected by `lang` (plain text as fallback), line by line.
#[verifier::external_body]
fn syntect_classed_html(code: &str, lang: &str, prefix: &'static str) -> (r: String)
    ensures
        r@ == classed_html_of(code@, lang@, prefix@),
{
    let ss = syntect::parsing::SyntaxSet::load_defaults_newlines();
    let syntax = ss.find_syntax_by_token(lang).unwrap_or_else(|| ss.find_syntax_plain_text());
    let style = syntect::html::ClassStyle::SpacedPrefixed { prefix };
    let mut generator = syntect::html::ClassedHTMLGenerator::new_with_class_style(
        syntax,
        &ss,
        style,
    );
    for line in syntect::util::LinesWithEndings::from(code) {
        generator.parse_html_for_line_which_includes_newline(line);
    }
    generator.finalize()
}

/// The class names for one scope string: its dot-separated atoms, each
/// carrying `prefix`.
pub open spec fn prefixed_atoms(scope: Seq<char>, prefix: Seq<char>) -> Seq<Seq<char>> {
    split_seq(scope, '.').map_values(|a: Seq<char>| prefix + a)
}

/// The class names for a list of scope strings, in order, duplicates
/// kept.
pub open spec fn class_strings(scopes: Seq<Seq<char>>, prefix: Seq<char>) -> Seq<Seq<char>>
    decreases scopes.len(),
{
    if scopes.len() == 0 {
        Seq::empty()
    } else {
        class_strings(scopes.drop_last(), prefix) + prefixed_atoms(scopes.last(), prefix)
    }
}

/// Builds the class names for `scopes` under `prefix`.
fn classes_for(scopes: &Vec<String>, prefix: &str) -> (r: Vec<String>)
    ensures
        views_of(r@) == class_strings(views_of(scopes@), prefix@),
{
    let mut r: Vec<String> = Vec::new();
    proof {
        assert(views_of(r@) =~= class_strings(views_of(scopes@).subrange(0, 0), prefix@));
    }
    let mut i: usize = 0;
    while i < scopes.len()
        invariant
            i <= scopes@.len(),
            views_of(r@) == class_strings(views_of(scopes@).subrange(0, i as int), prefix@),
        decreases scopes@.len() - i,
    {
        let ghost upto = views_of(scopes@).subrange(0, i as int);
        let atoms = split_str(scopes[i].as_str(), '.');
        let mut k: usize = 0;
        while k < atoms.len()
            invariant
                k <= atoms@.len(),
                views_of(atoms@) == split_seq(scopes@[i as int]@, '.'),
                i < scopes@.len(),
                upto == views_of(scopes@).subrange(0, i as int),
                views_of(r@) == class_strings(upto, prefix@) + prefixed_atoms(
                    scopes@[i as int]@,
                    prefix@,
                ).subrange(0, k as int),
            decreases atoms@.len() - k,
        {
            let mut cls: String = prefix.to_owned();
            cls.append(atoms[k].as_str());
            let ghost cv = cls@;
            r.push(cls);
            proof {
                let pa = prefixed_atoms(scopes@[i as int]@, prefix@);
                assert(views_of(atoms@)[k as int] == atoms@[k as int]@);
                assert(pa[k as int] == prefix@ + views_of(atoms@)[k as int]);
                assert(cv == pa[k as int]);
                assert(views_of(r@) =~= (class_strings(upto, prefix@) + pa.subrange(
                    0,
                    k as int,
                )).push(cv));
                assert(pa.subrange(0, k as int + 1) =~= pa.subrange(0, k as int).push(
                    pa[k as int],
                ));
                assert(views_of(r@) =~= class_strings(upto, prefix@) + pa.subrange(
                    0,
                    k as int + 1,
                ));
            }
            k = k + 1;
        }
        proof {
            let sv = views_of(scopes@);
            assert(prefixed_atoms(sv[i as int], prefix@).subrange(
                0,
                prefixed_atoms(sv[i as int], prefix@).len() as int,
            ) =~= prefixed_atoms(sv[i as int], prefix@));
            assert(sv.subrange(0, i as int + 1).drop_last() =~= sv.subrange(0, i as int));
            assert(sv.subrange(0, i as int + 1).last() == sv[i as int]);
        }
        i = i + 1;
    }
    proof {
        assert(views_of(scopes@).subrange(0, scopes@.len() as int) =~= views_of(scopes@));
    }
    r
}

/// Highlights one fenced code block: the classed HTML fragment together
/// with every class name it uses.
pub fn highlight_to_html(code: &str, lang: &str) -> (r: (String, Vec<String>))
    ensures
        r.0@ == classed_html_of(code@, lang@, "cbsh-"@),
        views_of(r.1@) == class_strings(scopes_of(code@, lang@), "cbsh-"@),
{
    let html = syntect_classed_html(code, lang, "cbsh-");
    let scopes = syntect_scopes(code, lang);
    let classes = classes_for(&scopes, "cbsh-");
    (html, classes)
}

/// The highlighted fragments of a block list, in order.
pub open spec fn highlighted_blocks(blocks: Seq<(Seq<char>, Seq<char>)>, prefix: Seq<char>) -> Seq<
    Seq<char>,
> {
    blocks.map_values(|b: (Seq<char>, Seq<char>)| classed_html_of(b.1, b.0, prefix))
}

/// The class names of every block, concatenated in order.
pub open spec fn all_classes(blocks: Seq<(Seq<char>, Seq<char>)>, prefix: Seq<char>) -> Seq<
    Seq<char>,
>
    decreases blocks.len(),
{
    if blocks.len() == 0 {
        Seq::empty()
    } else {
        all_classes(blocks.drop_last(), prefix) + class_strings(
            scopes_of(blocks.last().1, blocks.last().0),
            prefix,
        )
    }
}

/// What rendering a page means: highlight each fenced block, splice the
/// fragments into the folded HTML, and sanitise with exactly the emitted
/// classes allowed on `span` and `data-rel` allowed everywhere.
pub open spec fn spec_markdown_to_html(md: Seq<char>) -> Seq<char> {
    let blocks = fenced_blocks_of(md);
    clean_of(
        md_html_with_of(md, highlighted_blocks(blocks, "cbsh-"@)),
        "data-rel"@,
        all_classes(blocks, "cbsh-"@).to_set(),
    )
}

/// Renders one Markdown page to sanitised HTML.
pub fn markdown_to_html(markdown: &str) -> (r: String)
    ensures
        r@ == spec_markdown_to_html(markdown@),
{
    let blocks = md_fenced_blocks(markdown);
    let ghost bv = blocks@.map_values(|b: FencedBlock| (b.lang@, b.code@));
    let mut replacements: Vec<String> = Vec::new();
    let mut classes: Vec<String> = Vec::new();
    proof {
        assert(views_of(replacements@) =~= highlighted_blocks(bv.subrange(0, 0), "cbsh-"@));
        assert(views_of(classes@) =~= all_classes(bv.subrange(0, 0), "cbsh-"@));
    }
    let mut i: usize = 0;
    while i < blocks.len()
        invariant
            i <= blocks@.len(),
            bv == blocks@.map_values(|b: FencedBlock| (b.lang@, b.code@)),
            views_of(replacements@) == highlighted_blocks(bv.subrange(0, i as int), "cbsh-"@),
            views_of(classes@) == all_classes(bv.subrange(0, i as int), "cbsh-"@),
        decreases blocks@.len() - i,
    {
        let pieces = highlight_codeblock(&blocks[i]);
        let ghost hv = pieces.0@;
        let mut cls = pieces.1;
        let ghost clsv = views_of(cls@);
        replacements.push(pieces.0);
        classes.append(&mut cls);
        proof {
            assert(bv[i as int] == (blocks@[i as int].lang@, blocks@[i as int].code@));
            assert(bv.subrange(0, i as int + 1).drop_last() =~= bv.subrange(0, i as int));
            assert(bv.subrange(0, i as int + 1).last() == bv[i as int]);
            assert(views_of(replacements@) =~= highlighted_blocks(
                bv.subrange(0, i as int),
                "cbsh-"@,
            ).push(hv));
            assert(highlighted_blocks(bv.subrange(0, i as int + 1), "cbsh-"@) =~= highlighted_blocks(
                bv.subrange(0, i as int),
                "cbsh-"@,
            ).push(classed_html_of(bv[i as int].1, bv[i as int].0, "cbsh-"@)));
            assert(views_of(classes@) =~= all_classes(bv.subrange(0, i as int), "cbsh-"@) + clsv);
        }
        i = i + 1;
    }
    proof {
        assert(bv.subrange(0, bv.len() as int) =~= bv);
    }
    let rendered = md_render_with(markdown, &replacements);
    proof {
        reveal_strlit("data-rel");
        reveal_strlit("class");
        reveal_strlit("rel");
        assert("data-rel"@.len() == 8);
        assert("class"@.len() == 5);
        assert("rel"@.len() == 3);
    }
    sanitize_html(rendered.as_str(), "data-rel", &classes)
}

/// Highlights one block, handing back the fragment and its classes.
fn highlight_codeblock(block: &FencedBlock) -> (r: (String, Vec<String>))
    ensures
        r.0@ == classed_html_of(block.code@, block.lang@, "cbsh-"@),
        views_of(r.1@) == class_strings(scopes_of(block.code@, block.lang@), "cbsh-"@),
{
    highlight_to_html(block.code.as_str(), block.lang.as_str())
}

} // verus!
