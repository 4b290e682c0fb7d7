//! API documentation: the documented items of a program and their HTML
//! rendering.

use vstd::prelude::*;
use crate::ast::Stmt;
use crate::strmap::StrMap;
use crate::text::{chars_of, is_empty_str, join, push_char, push_join, push_str, string_seq_view, trim, trim_ws};

verus! {

/// A documented item.
pub struct DocItem {
    pub name: String,
    pub kind: String,
    pub docs: String,
    pub signature: String,
    pub effects: Vec<String>,
}

/// How a character is written in HTML text.
pub open spec fn html_char(c: char) -> Seq<char> {
    if c == '&' {
        "&amp;"@
    } else if c == '<' {
        "&lt;"@
    } else if c == '>' {
        "&gt;"@
    } else if c == '"' {
        "&quot;"@
    } else if c == '\'' {
        "&#39;"@
    } else {
        seq![c]
    }
}

/// `s` with the HTML special characters escaped.
pub open spec fn html_escaped(s: Seq<char>) -> Seq<char>
    decreases s.len(),
{
    if s.len() == 0 {
        seq![]
    } else {
        html_escaped(s.drop_last()) + html_char(s.last())
    }
}

fn escape_html(text: &str) -> (r: String)
    ensures
        r@ == html_escaped(text@),
{
    let cs = chars_of(text);
    let mut out = String::new();
    let mut i: usize = 0;
    assert(cs@.take(0) =~= Seq::<char>::empty());
    while i < cs.len()
        invariant
            i <= cs@.len(),
            cs@ == text@,
            out@ == html_escaped(cs@.take(i as int)),
        decreases cs.len() - i,
    {
        let c = cs[i];
        if c == '&' {
            push_str(&mut out, "&amp;");
        } else if c == '<' {
            push_str(&mut out, "&lt;");
        } else if c == '>' {
            push_str(&mut out, "&gt;");
        } else if c == '"' {
            push_str(&mut out, "&quot;");
        } else if c == '\'' {
            push_str(&mut out, "&#39;");
        } else {
            crate::text::push_char(&mut out, c);
        }
        assert(cs@.take(i + 1).drop_last() =~= cs@.take(i as int));
        assert(out@ =~= html_escaped(cs@.take(i + 1)));
        i = i + 1;
    }
    assert(cs@.take(cs@.len() as int) =~= cs@);
    out
}

/// The page header, with its style sheet.
pub open spec fn page_head() -> Seq<char> {
    "<html><head><title>Omni Documentation</title><style>\n"@
        + "body { font-family: sans-serif; max-width: 800px; margin: 0 auto; padding: 20px; }\n"@
        + ".item { border: 1px solid #ddd; padding: 15px; margin-bottom: 20px; border-radius: 5px; }\n"@
        + ".signature { font-family: monospace; font-size: 1.1em; background: #f4f4f4; padding: 5px; }\n"@
        + ".effect { display: inline-block; background: #e0e0ff; color: #333; padding: 2px 5px; margin: 2px; border-radius: 3px; font-size: 0.8em; }\n"@
        + "</style></head><body>"@
}

/// The effect badges of an item.
pub open spec fn effect_badges(effects: Seq<String>) -> Seq<char>
    decreases effects.len(),
{
    if effects.len() == 0 {
        seq![]
    } else {
        effect_badges(effects.drop_last()) + "<span class=\"effect\">"@ + html_escaped(effects.last()@) + "</span>"@
    }
}

/// The heading and signature of an item.
pub open spec fn item_head(item: DocItem) -> Seq<char> {
    "<div class=\"item\"><h2>"@ + html_escaped(item.name@)
        + " <span style=\"font-size: 0.6em; color: #666;\">("@ + html_escaped(item.kind@) + ")</span></h2>"@
        + "<div class=\"signature\">"@ + html_escaped(item.signature@) + "</div>"@
}

/// The effects of an item, if it has any.
pub open spec fn item_effects(item: DocItem) -> Seq<char> {
    if item.effects@.len() > 0 {
        "<div style=\"margin-top: 10px;\"><strong>Effects:</strong>"@ + effect_badges(item.effects@) + "</div>"@
    } else {
        seq![]
    }
}

/// The documentation of an item, if it has any.
pub open spec fn item_docs(item: DocItem) -> Seq<char> {
    if item.docs@.len() > 0 { "<p>"@ + html_escaped(item.docs@) + "</p>"@ } else { seq![] }
}

/// The section of one item: heading with its kind, signature, effects (if
/// any) and documentation (if any).
pub open spec fn item_html(item: DocItem) -> Seq<char> {
    item_head(item) + item_effects(item) + item_docs(item) + "</div>"@
}

pub open spec fn items_html(items: Seq<DocItem>) -> Seq<char>
    decreases items.len(),
{
    if items.len() == 0 {
        seq![]
    } else {
        items_html(items.drop_last()) + item_html(items.last())
    }
}

/// The documentation page for `items`, in order.
pub open spec fn docs_page(items: Seq<DocItem>) -> Seq<char> {
    page_head() + "<h1>Omni API Documentation</h1>"@ + items_html(items) + "</body></html>"@
}

fn push_item_head(html: &mut String, item: &DocItem)
    ensures
        final(html)@ == old(html)@ + item_head(*item),
{
    let ghost start = html@;
    push_str(html, "<div class=\"item\"><h2>");
    let name = escape_html(item.name.as_str());
    push_str(html, name.as_str());
    push_str(html, " <span style=\"font-size: 0.6em; color: #666;\">(");
    let kind = escape_html(item.kind.as_str());
    push_str(html, kind.as_str());
    push_str(html, ")</span></h2>");
    push_str(html, "<div class=\"signature\">");
    let sig = escape_html(item.signature.as_str());
    push_str(html, sig.as_str());
    push_str(html, "</div>");
    assert(html@ =~= start + item_head(*item));
}

fn push_item_effects(html: &mut String, item: &DocItem)
    ensures
        final(html)@ == old(html)@ + item_effects(*item),
{
    let ghost start = html@;
    if item.effects.len() > 0 {
        push_str(html, "<div style=\"margin-top: 10px;\"><strong>Effects:</strong>");
        let ghost before = html@;
        let mut k: usize = 0;
        assert(item.effects@.take(0) =~= Seq::<String>::empty());
        assert(html@ =~= before + effect_badges(item.effects@.take(0)));
        while k < item.effects.len()
            invariant
                k <= item.effects@.len(),
                html@ == before + effect_badges(item.effects@.take(k as int)),
            decreases item.effects.len() - k,
        {
            push_str(html, "<span class=\"effect\">");
            let e = escape_html(item.effects[k].as_str());
            push_str(html, e.as_str());
            push_str(html, "</span>");
            assert(item.effects@.take(k + 1).drop_last() =~= item.effects@.take(k as int));
            assert(html@ =~= before + effect_badges(item.effects@.take(k + 1)));
            k = k + 1;
        }
        assert(item.effects@.take(item.effects@.len() as int) =~= item.effects@);
        push_str(html, "</div>");
        assert(html@ =~= start + item_effects(*item));
    } else {
        assert(html@ =~= start + item_effects(*item));
    }
}

fn push_item_docs(html: &mut String, item: &DocItem)
    ensures
        final(html)@ == old(html)@ + item_docs(*item),
{
    let ghost start = html@;
    if !is_empty_str(item.docs.as_str()) {
        push_str(html, "<p>");
        let d = escape_html(item.docs.as_str());
        push_str(html, d.as_str());
        push_str(html, "</p>");
        assert(html@ =~= start + item_docs(*item));
    } else {
        assert(html@ =~= start + item_docs(*item));
    }
}

fn push_item(html: &mut String, item: &DocItem)
    ensures
        final(html)@ == old(html)@ + item_html(*item),
{
    let ghost start = html@;
    push_item_head(html, item);
    push_item_effects(html, item);
    push_item_docs(html, item);
    push_str(html, "</div>");
    assert(html@ =~= start + item_html(*item));
}

/// Renders the documentation page for `items`.
pub fn generate_html(items: &[DocItem]) -> (html: String)
    ensures
        html@ == docs_page(items@),
{
    let mut html = String::new();
    push_str(&mut html, "<html><head><title>Omni Documentation</title><style>\n");
    push_str(&mut html, "body { font-family: sans-serif; max-width: 800px; margin: 0 auto; padding: 20px; }\n");
    push_str(&mut html, ".item { border: 1px solid #ddd; padding: 15px; margin-bottom: 20px; border-radius: 5px; }\n");
    push_str(&mut html, ".signature { font-family: monospace; font-size: 1.1em; background: #f4f4f4; padding: 5px; }\n");
    push_str(&mut html, ".effect { display: inline-block; background: #e0e0ff; color: #333; padding: 2px 5px; margin: 2px; border-radius: 3px; font-size: 0.8em; }\n");
    push_str(&mut html, "</style></head><body>");
    push_str(&mut html, "<h1>Omni API Documentation</h1>");
    let ghost start = html@;
    assert(start =~= page_head() + "<h1>Omni API Documentation</h1>"@);
    let mut i: usize = 0;
    assert(items@.take(0) =~= Seq::<DocItem>::empty());
    assert(html@ =~= start + items_html(items@.take(0)));
    while i < items.len()
        invariant
            i <= items@.len(),
            html@ == start + items_html(items@.take(i as int)),
        decreases items.len() - i,
    {
        push_item(&mut html, &items[i]);
        assert(items@.take(i + 1).drop_last() =~= items@.take(i as int));
        assert(html@ =~= start + items_html(items@.take(i + 1)));
        i = i + 1;
    }
    assert(items@.take(items@.len() as int) =~= items@);
    push_str(&mut html, "</body></html>");
    html
}


// ---------------------------------------------------------------------------
// Collecting the documented items
// ---------------------------------------------------------------------------

/// The documentation gathered for each target name from the doc comments of
/// `ss`, in order: each comment's trimmed content, appended on a new line
/// when both the text so far and the comment's content are non-empty.
pub open spec fn docs_by_target(ss: Seq<Stmt>) -> Map<Seq<char>, Seq<char>>
    decreases ss.len(),
{
    if ss.len() == 0 {
        Map::empty()
    } else {
        let m = docs_by_target(ss.drop_last());
        match ss.last() {
            Stmt::DocComment { target, content, .. } => {
                if m.contains_key(target@) {
                    let existing = m[target@];
                    let sep = if existing.len() > 0 && content@.len() > 0 { seq!['\n'] } else { seq![] };
                    m.insert(target@, existing + sep + trim_ws(content@))
                } else {
                    m.insert(target@, trim_ws(content@))
                }
            },
            _ => m,
        }
    }
}

/// A documented item as plain values: name, kind, docs, signature, effects.
pub type DocItemView = (Seq<char>, Seq<char>, Seq<char>, Seq<char>, Seq<Seq<char>>);

pub open spec fn doc_item_view(d: DocItem) -> DocItemView {
    (d.name@, d.kind@, d.docs@, d.signature@, string_seq_view(d.effects@))
}

/// How a parameter is shown in a signature.
pub open spec fn param_text(p: (String, Option<String>)) -> Seq<char> {
    match p.1 {
        Some(t) => p.0@ + ": "@ + t@,
        None => p.0@,
    }
}

pub open spec fn params_text(ps: Seq<(String, Option<String>)>) -> Seq<char> {
    join(Seq::new(ps.len(), |i: int| param_text(ps[i])), ", "@)
}

/// The documentation of `name`, or nothing.
pub open spec fn docs_of(docs: Map<Seq<char>, Seq<char>>, name: Seq<char>) -> Seq<char> {
    if docs.contains_key(name) { docs[name] } else { seq![] }
}

/// The item a statement documents, if it is a function or a struct.
pub open spec fn item_of(s: Stmt, docs: Map<Seq<char>, Seq<char>>) -> Seq<DocItemView> {
    match s {
        Stmt::Fn { name, effects, params, ret_type, .. } => {
            let ret = match ret_type { Some(r) => " -> "@ + r@, None => seq![] };
            seq![(name@, "Function"@, docs_of(docs, name@), "fn "@ + name@ + "("@ + params_text(params@) + ")"@ + ret,
                string_seq_view(effects@))]
        },
        Stmt::Struct { name, is_linear, .. } => seq![(
            name@,
            if is_linear { "Linear Struct"@ } else { "Struct"@ },
            docs_of(docs, name@),
            "struct "@ + name@,
            seq![],
        )],
        _ => seq![],
    }
}

/// The documented items of `ss`, in order.
pub open spec fn items_of(ss: Seq<Stmt>, docs: Map<Seq<char>, Seq<char>>) -> Seq<DocItemView>
    decreases ss.len(),
{
    if ss.len() == 0 { seq![] } else { items_of(ss.drop_last(), docs) + item_of(ss.last(), docs) }
}

fn copy_strings(v: &Vec<String>) -> (r: Vec<String>)
    ensures
        string_seq_view(r@) == string_seq_view(v@),
{
    let mut out: Vec<String> = Vec::new();
    let mut i: usize = 0;
    while i < v.len()
        invariant
            i <= v@.len(),
            out@.len() == i,
            forall|k: int| 0 <= k < i ==> (#[trigger] out@[k])@ == v@[k]@,
        decreases v.len() - i,
    {
        out.push(v[i].clone());
        i = i + 1;
    }
    assert(string_seq_view(out@) =~= string_seq_view(v@));
    out
}

fn signature_params(params: &Vec<(String, Option<String>)>) -> (r: String)
    ensures
        r@ == params_text(params@),
{
    let mut parts: Vec<String> = Vec::new();
    let mut i: usize = 0;
    while i < params.len()
        invariant
            i <= params@.len(),
            parts@.len() == i,
            forall|k: int| 0 <= k < i ==> (#[trigger] parts@[k])@ == param_text(params@[k]),
        decreases params.len() - i,
    {
        let mut p = params[i].0.clone();
        match &params[i].1 {
            Some(t) => {
                push_str(&mut p, ": ");
                push_str(&mut p, t.as_str());
            },
            None => {},
        }
        parts.push(p);
        i = i + 1;
    }
    let mut r = String::new();
    push_join(&mut r, parts.as_slice(), ", ");
    assert(string_seq_view(parts@) =~= Seq::new(params@.len(), |k: int| param_text(params@[k])));
    assert(r@ =~= params_text(params@));
    r
}

/// Collects the documented items of a program: its functions and structs,
/// in order, each with the documentation its doc comments gave its name.
/// Missing documentation stays empty.
pub fn generate_docs(ast: &[Stmt]) -> (items: Vec<DocItem>)
    ensures
        items@.map_values(|d: DocItem| doc_item_view(d)) == items_of(ast@, docs_by_target(ast@)),
{
    let mut docs: StrMap<String> = StrMap::new();
    let ghost ss = ast@;
    let mut i: usize = 0;
    assert(ss.take(0) =~= Seq::<Stmt>::empty());
    assert(docs@.map_values(|t: String| t@) =~= docs_by_target(ss.take(0)));
    while i < ast.len()
        invariant
            i <= ss.len(),
            ss == ast@,
            docs@.map_values(|t: String| t@) == docs_by_target(ss.take(i as int)),
        decreases ss.len() - i,
    {
        assert(ss.take(i + 1).drop_last() =~= ss.take(i as int));
        assert(ss.take(i + 1).last() == ss[i as int]);
        let ghost m = docs_by_target(ss.take(i as int));
        match &ast[i] {
            Stmt::DocComment { target, content, .. } => {
                let trimmed = trim(content.as_str());
                let ghost before = docs@;
                let ghost want = if m.contains_key(target@) {
                    let existing = m[target@];
                    let sep = if existing.len() > 0 && content@.len() > 0 { seq!['\n'] } else { Seq::<char>::empty() };
                    existing + sep + trim_ws(content@)
                } else {
                    trim_ws(content@)
                };
                let updated = match docs.get(target.as_str()) {
                    Some(existing) => {
                        let mut e = existing.clone();
                        if !is_empty_str(e.as_str()) && !is_empty_str(content.as_str()) {
                            push_char(&mut e, '\n');
                        }
                        push_str(&mut e, trimmed.as_str());
                        e
                    },
                    None => trimmed,
                };
                assert(updated@ =~= want);
                docs.insert(target.clone(), updated);
                assert(docs_by_target(ss.take(i + 1)) == m.insert(target@, want));
                assert(docs@.map_values(|t: String| t@) =~= docs_by_target(ss.take(i + 1)));
            },
            _ => {},
        }
        i = i + 1;
    }
    assert(ss.take(i as int) =~= ss);
    let ghost dm = docs_by_target(ss);
    let mut items: Vec<DocItem> = Vec::new();
    let mut k: usize = 0;
    assert(items@.map_values(|d: DocItem| doc_item_view(d)) =~= items_of(ss.take(0), dm));
    while k < ast.len()
        invariant
            k <= ss.len(),
            ss == ast@,
            docs@.map_values(|t: String| t@) == dm,
            items@.map_values(|d: DocItem| doc_item_view(d)) == items_of(ss.take(k as int), dm),
        decreases ss.len() - k,
    {
        assert(ss.take(k + 1).drop_last() =~= ss.take(k as int));
        assert(ss.take(k + 1).last() == ss[k as int]);
        let ghost before = items@;
        assert(items_of(ss.take(k + 1), dm) == items_of(ss.take(k as int), dm) + item_of(ss[k as int], dm));
        match &ast[k] {
            Stmt::Fn { name, effects, params, ret_type, .. } => {
                let mut signature = String::from_str("fn ");
                push_str(&mut signature, name.as_str());
                push_str(&mut signature, "(");
                let ps = signature_params(params);
                push_str(&mut signature, ps.as_str());
                push_str(&mut signature, ")");
                match ret_type {
                    Some(r) => {
                        push_str(&mut signature, " -> ");
                        push_str(&mut signature, r.as_str());
                    },
                    None => {},
                }
                let doc = match docs.get(name.as_str()) {
                    Some(d) => d.clone(),
                    None => String::new(),
                };
                let item = DocItem {
                    name: name.clone(),
                    kind: String::from_str("Function"),
                    docs: doc,
                    signature,
                    effects: copy_strings(effects),
                };
                proof {
                    let ret = match ret_type { Some(r) => " -> "@ + r@, None => Seq::<char>::empty() };
                    assert(item.signature@ =~= "fn "@ + name@ + "("@ + params_text(params@) + ")"@ + ret);
                    assert(item.docs@ == docs_of(dm, name@));
                    assert(string_seq_view(item.effects@) == string_seq_view(effects@));
                    assert(item.name@ == name@);
                    assert(item.kind@ == "Function"@);
                }
                assert(seq![doc_item_view(item)] =~= item_of(ss[k as int], dm));
                items.push(item);
                assert(items@.map_values(|d: DocItem| doc_item_view(d)) =~= before.map_values(|d: DocItem| doc_item_view(d)).push(doc_item_view(item)));
            },
            Stmt::Struct { name, is_linear, .. } => {
                let mut signature = String::from_str("struct ");
                push_str(&mut signature, name.as_str());
                let doc = match docs.get(name.as_str()) {
                    Some(d) => d.clone(),
                    None => String::new(),
                };
                let effects: Vec<String> = Vec::new();
                assert(string_seq_view(effects@) =~= Seq::<Seq<char>>::empty());
                let item = DocItem {
                    name: name.clone(),
                    kind: if *is_linear { String::from_str("Linear Struct") } else { String::from_str("Struct") },
                    docs: doc,
                    signature,
                    effects,
                };
                assert(seq![doc_item_view(item)] =~= item_of(ss[k as int], dm));
                items.push(item);
                assert(items@.map_values(|d: DocItem| doc_item_view(d)) =~= before.map_values(|d: DocItem| doc_item_view(d)).push(doc_item_view(item)));
            },
            _ => {},
        }
        assert(items@.map_values(|d: DocItem| doc_item_view(d)) =~= items_of(ss.take(k + 1), dm));
        k = k + 1;
    }
    assert(ss.take(k as int) =~= ss);
    items
}
} // verus!
