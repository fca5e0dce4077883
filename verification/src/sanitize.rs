//! Message-HTML sanitization. No message HTML reaches the webview, or the
//! local store, without passing through [`sanitize_html`]; the `ammonia`
//! allow-list cleaner does the HTML work under the policy fixed here.
//! [`html_to_text`] reduces HTML to the plain text the search index holds.
use vstd::prelude::*;
use crate::text::{chars_of, collapse_whitespace, collapse_ws, is_whitespace, is_ws, string_of};

verus! {

/// The HTML that `ammonia` produces from `dirty` with its default policy,
/// minus the tags in `removed_tags`, with only the URL schemes in `schemes`.
pub uninterp spec fn ammonia_clean(
    dirty: Seq<char>,
    removed_tags: Seq<Seq<char>>,
    schemes: Seq<Seq<char>>,
) -> Seq<char>;

pub open spec fn str_views(v: Seq<&str>) -> Seq<Seq<char>> {
    v.map_values(|s: &str| s@)
}

/// `ammonia::Builder::default()` with `rm_tags(removed_tags)` and
/// `url_schemes(schemes)`, then `clean(dirty).to_string()`. The result is
/// `ammonia_clean` of the three arguments; what the cleaner keeps is not
/// restated. `rm_tags` only removes tags from the allow-list, which never
/// panics.
#[verifier::external_body]
fn ammonia_clean_with(dirty: &str, removed_tags: &[&str], schemes: &[&str]) -> (r: String)
    ensures
        r@ == ammonia_clean(dirty@, str_views(removed_tags@), str_views(schemes@)),
{
    let mut builder = ammonia::Builder::default();
    builder.rm_tags(removed_tags.iter().copied());
    builder.url_schemes(schemes.iter().copied().collect());
    builder.clean(dirty).to_string()
}

/// Forms are exfiltration surface: the whole family is removed.
pub open spec fn removed_form_tags() -> Seq<Seq<char>> {
    seq!["form"@, "input"@, "button"@, "select"@, "textarea"@, "option"@]
}

/// `javascript:`, `vbscript:`, `file:` and the like are dropped; `cid:`
/// stays for inline-attachment references and `data:` for inline images.
pub open spec fn allowed_url_schemes() -> Seq<Seq<char>> {
    seq!["http"@, "https"@, "mailto"@, "cid"@, "data"@]
}

/// The sanitizer's output for untrusted message HTML.
pub open spec fn sanitized(dirty: Seq<char>) -> Seq<char> {
    ammonia_clean(dirty, removed_form_tags(), allowed_url_schemes())
}

/// Sanitize untrusted message HTML: `ammonia`'s defaults (no `<script>`, no
/// `on*` handler, no `style` attribute, no tag off the allow-list) plus the
/// form family removed and the URL schemes restricted.
pub fn sanitize_html(dirty: &str) -> (r: String)
    ensures
        r@ == sanitized(dirty@),
{
    let tags: [&str; 6] = ["form", "input", "button", "select", "textarea", "option"];
    let schemes: [&str; 5] = ["http", "https", "mailto", "cid", "data"];
    let r = ammonia_clean_with(dirty, tags.as_slice(), schemes.as_slice());
    assert(str_views(tags@) =~= removed_form_tags());
    assert(str_views(schemes@) =~= allowed_url_schemes());
    r
}

} // verus!
verus! {

/// Bytes of a character in UTF-8.
pub open spec fn utf8_len(c: char) -> nat {
    let u = c as u32;
    if u < 0x80 {
        1
    } else if u < 0x800 {
        2
    } else if u < 0x10000 {
        3
    } else {
        4
    }
}

fn utf8_len_exec(c: char) -> (n: usize)
    ensures
        n == utf8_len(c),
{
    let u = c as u32;
    if u < 0x80 {
        1
    } else if u < 0x800 {
        2
    } else if u < 0x10000 {
        3
    } else {
        4
    }
}

/// Position of the first `'>'` in `s` at or after `k`.
pub open spec fn first_gt(s: Seq<char>, k: int) -> Option<int>
    decreases s.len() - k,
{
    if k < 0 || k >= s.len() {
        None
    } else if s[k] == '>' {
        Some(k)
    } else {
        first_gt(s, k + 1)
    }
}

/// The entity scan after an `'&'`: from position `k` of `s`, with `bytes`
/// UTF-8 bytes of entity name read so far, how many characters the name
/// has and whether a `';'` ends it. The name stops before a `'&'`, a `'<'`,
/// whitespace, the end of the text, or once it holds 8 bytes or more.
pub open spec fn entity_scan(s: Seq<char>, k: int, bytes: nat) -> (int, bool)
    decreases s.len() - k,
{
    if k < 0 || k >= s.len() {
        (k, false)
    } else if s[k] == ';' {
        (k, true)
    } else if bytes >= 8 || s[k] == '&' || s[k] == '<' || is_ws(s[k]) {
        (k, false)
    } else {
        entity_scan(s, k + 1, bytes + utf8_len(s[k]))
    }
}

/// What an entity name becomes in index text: the six known entities are
/// decoded; an unterminated name is literal text; an unknown terminated
/// entity is dropped.
pub open spec fn entity_text(name: Seq<char>, terminated: bool) -> Seq<char> {
    if name == "amp"@ {
        seq!['&']
    } else if name == "lt"@ {
        seq!['<']
    } else if name == "gt"@ {
        seq!['>']
    } else if name == "quot"@ || name == "#34"@ {
        seq!['"']
    } else if name == "apos"@ || name == "#39"@ {
        seq!['\'']
    } else if name == "nbsp"@ || name == "#160"@ {
        seq![' ']
    } else if !terminated {
        seq!['&'] + name
    } else {
        Seq::empty()
    }
}

/// HTML reduced to text before whitespace is collapsed: each tag becomes one
/// space (an unclosed tag swallows the rest), entities are decoded, every
/// other character is kept.
pub open spec fn tag_stripped(s: Seq<char>) -> Seq<char>
    decreases s.len(),
{
    if s.len() == 0 {
        Seq::empty()
    } else {
        let rest = s.drop_first();
        if s[0] == '<' {
            proof {
                lemma_first_gt_range(rest, 0);
            }
            match first_gt(rest, 0) {
                Some(j) => seq![' '] + tag_stripped(rest.skip(j + 1)),
                None => Seq::empty(),
            }
        } else if s[0] == '&' {
            proof {
                lemma_entity_scan_range(rest, 0, 0);
            }
            let (k, terminated) = entity_scan(rest, 0, 0);
            let consumed = if terminated { k + 1 } else { k };
            entity_text(rest.take(k), terminated) + tag_stripped(rest.skip(consumed))
        } else {
            seq![s[0]] + tag_stripped(rest)
        }
    }
}

/// The plain text of an HTML document for full-text indexing.
pub open spec fn plain_text(html: Seq<char>) -> Seq<char> {
    collapse_ws(tag_stripped(html))
}

proof fn lemma_first_gt_skip(s: Seq<char>, k: int)
    requires
        0 <= k <= s.len(),
        forall|m: int| 0 <= m < k ==> s[m] != '>',
    ensures
        first_gt(s, 0) == first_gt(s, k),
    decreases k,
{
    if k > 0 {
        lemma_first_gt_skip(s, k - 1);
    }
}

pub proof fn lemma_first_gt_range(s: Seq<char>, k: int)
    requires
        0 <= k,
    ensures
        match first_gt(s, k) {
            Some(j) => k <= j < s.len() && s[j] == '>',
            None => true,
        },
    decreases s.len() - k,
{
    if k < s.len() && s[k] != '>' {
        lemma_first_gt_range(s, k + 1);
    }
}

pub proof fn lemma_entity_scan_range(s: Seq<char>, k: int, b: nat)
    requires
        0 <= k,
    ensures
        k <= entity_scan(s, k, b).0 <= s.len() || (k > s.len() && entity_scan(s, k, b).0 == k),
        entity_scan(s, k, b).1 ==> entity_scan(s, k, b).0 < s.len(),
    decreases s.len() - k,
{
    if k < s.len() && s[k] != ';' && !(b >= 8 || s[k] == '&' || s[k] == '<' || is_ws(s[k])) {
        lemma_entity_scan_range(s, k + 1, b + utf8_len(s[k]));
    }
}

fn name_is(name: &[char], lit: &str) -> (r: bool)
    ensures
        r == (name@ == lit@),
{
    let l = chars_of(lit);
    crate::text::chars_equal(name, l.as_slice())
}

fn entity_text_exec(name: &[char], terminated: bool) -> (r: Vec<char>)
    ensures
        r@ == entity_text(name@, terminated),
{
    let mut r: Vec<char> = Vec::new();
    if name_is(name, "amp") {
        r.push('&');
    } else if name_is(name, "lt") {
        r.push('<');
    } else if name_is(name, "gt") {
        r.push('>');
    } else if name_is(name, "quot") || name_is(name, "#34") {
        r.push('"');
    } else if name_is(name, "apos") || name_is(name, "#39") {
        r.push('\'');
    } else if name_is(name, "nbsp") || name_is(name, "#160") {
        r.push(' ');
    } else if !terminated {
        r.push('&');
        crate::text::append_chars(&mut r, name);
    }
    assert(r@ =~= entity_text(name@, terminated));
    r
}

/// Reduce HTML to plain text for full-text indexing: tags dropped, common
/// entities decoded, whitespace collapsed. Not a sanitizer: it feeds the
/// search index, where the only job is keeping `<div>` and friends out of
/// the tokens.
pub fn html_to_text(html: &str) -> (r: String)
    ensures
        r@ == plain_text(html@),
{
    let cs = chars_of(html);
    let n = cs.len();
    let mut out: Vec<char> = Vec::new();
    let mut i: usize = 0;
    assert(cs@.skip(0) =~= cs@);
    while i < n
        invariant
            n == cs@.len(),
            i <= n,
            tag_stripped(cs@) == out@ + tag_stripped(cs@.skip(i as int)),
        decreases n - i,
    {
        let c = cs[i];
        let ghost s = cs@.skip(i as int);
        let ghost rest = s.drop_first();
        assert(rest =~= cs@.skip(i + 1));
        if c == '<' {
            let mut j: usize = i + 1;
            while j < n && cs[j] != '>'
                invariant
                    n == cs@.len(),
                    i + 1 <= j <= n,
                    rest =~= cs@.skip(i + 1),
                    forall|m: int| i + 1 <= m < j ==> cs@[m] != '>',
                decreases n - j,
            {
                j = j + 1;
            }
            proof {
                lemma_first_gt_skip(rest, j - i - 1);
            }
            if j < n {
                out.push(' ');
                proof {
                    assert(first_gt(rest, j - i - 1) == Some(j - i - 1));
                    assert(rest.skip(j - i - 1 + 1) =~= cs@.skip(j + 1));
                }
                i = j + 1;
            } else {
                proof {
                    assert(first_gt(rest, j - i - 1) is None);
                    assert(cs@.skip(n as int) =~= Seq::<char>::empty());
                }
                i = n;
            }
        } else if c == '&' {
            let mut k: usize = i + 1;
            let mut bytes: usize = 0;
            let mut name: Vec<char> = Vec::new();
            let mut terminated = false;
            let mut done = false;
            while !done && k < n
                invariant
                    n == cs@.len(),
                    i + 1 <= k <= n,
                    bytes < 8 + 4,
                    rest =~= cs@.skip(i + 1),
                    name@ == rest.take(k - i - 1),
                    !done ==> !terminated && entity_scan(rest, 0, 0) == entity_scan(
                        rest,
                        k - i - 1,
                        bytes as nat,
                    ),
                    done ==> entity_scan(rest, 0, 0) == (k - i - 1, terminated),
                    terminated ==> k < n,
                decreases n - k, if done { 0int } else { 1int },
            {
                let nc = cs[k];
                if nc == ';' {
                    terminated = true;
                    done = true;
                } else if bytes >= 8 || nc == '&' || nc == '<' || is_whitespace(nc) {
                    done = true;
                } else {
                    let w = utf8_len_exec(nc);
                    bytes = bytes + w;
                    name.push(nc);
                    k = k + 1;
                    assert(name@ =~= rest.take(k - i - 1));
                }
            }
            let ghost kk = k - i - 1;
            proof {
                assert(entity_scan(rest, 0, 0) == (kk, terminated));
            }
            let piece = entity_text_exec(name.as_slice(), terminated);
            crate::text::append_chars(&mut out, piece.as_slice());
            let next = if terminated { k + 1 } else { k };
            proof {
                let consumed = if terminated { kk + 1 } else { kk };
                assert(rest.skip(consumed) =~= cs@.skip(next as int));
            }
            i = next;
        } else {
            out.push(c);
            i = i + 1;
        }
    }
    assert(cs@.skip(n as int) =~= Seq::<char>::empty());
    assert(out@ =~= out@ + tag_stripped(Seq::<char>::empty()));
    let collapsed = collapse_whitespace(out.as_slice());
    string_of(collapsed.as_slice())
}

} // verus!
verus! {

/// A message body as the reading pane gets it: `content_type` "html"
/// (already sanitized) or "text" (rendered as text, never as HTML).
#[derive(Debug)]
pub struct DisplayBody {
    pub body: String,
    pub content_type: String,
}

/// The stored body of a message, when one was cached. A cached body whose
/// type was never recorded is HTML (bodies are sanitized before storage).
pub fn cached_display_body(m: &crate::store::Message) -> (r: Option<DisplayBody>)
    ensures
        m.body_html is None ==> r is None,
        m.body_html matches Some(b) ==> (r matches Some(d) && d.body@ == b@ && d.content_type@ == match
            m.body_content_type {
            Some(t) => t@,
            None => "html"@,
        }),
{
    match &m.body_html {
        Some(b) => {
            let ct = match &m.body_content_type {
                Some(t) => t.clone(),
                None => String::from_str("html"),
            };
            Some(DisplayBody { body: b.clone(), content_type: ct })
        },
        None => None,
    }
}

/// A body fetched from the server, made safe to show: HTML goes through the
/// sanitizer, anything else is shown as text.
pub fn fetched_display_body(f: &crate::graph::FetchedBody) -> (r: DisplayBody)
    ensures
        f.content_type@ == "html"@ ==> r.body@ == sanitized(f.content@) && r.content_type@ == "html"@,
        f.content_type@ != "html"@ ==> r.body@ == f.content@ && r.content_type@ == "text"@,
{
    if crate::text::str_eq(f.content_type.as_str(), "html") {
        DisplayBody { body: sanitize_html(f.content.as_str()), content_type: String::from_str("html") }
    } else {
        DisplayBody { body: f.content.clone(), content_type: String::from_str("text") }
    }
}

} // verus!
verus! {

/// Text with no tag and no entity passes through tag stripping.
proof fn lemma_tag_stripped_plain(s: Seq<char>, rest: Seq<char>)
    requires
        forall|i: int| 0 <= i < s.len() ==> s[i] != '<' && s[i] != '&',
    ensures
        tag_stripped(s + rest) == s + tag_stripped(rest),
    decreases s.len(),
{
    if s.len() > 0 {
        let x = s + rest;
        assert(x[0] == s[0]);
        assert(x.drop_first() =~= s.drop_first() + rest);
        lemma_tag_stripped_plain(s.drop_first(), rest);
        assert(seq![s[0]] + (s.drop_first() + tag_stripped(rest)) =~= s + tag_stripped(rest));
    } else {
        assert(s + rest =~= rest);
        assert(s + tag_stripped(rest) =~= tag_stripped(rest));
    }
}

/// Inside a tag whose name holds no '>', the scan finds the closing '>'
/// right after the name.
proof fn lemma_first_gt_after(t: Seq<char>, rest: Seq<char>)
    requires
        forall|i: int| 0 <= i < t.len() ==> t[i] != '>',
    ensures
        first_gt(t + seq!['>'] + rest, 0) == Some(t.len() as int),
{
    let x = t + seq!['>'] + rest;
    assert forall|m: int| 0 <= m < t.len() implies x[m] != '>' by {
        assert(x[m] == t[m]);
    }
    lemma_first_gt_skip(x, t.len() as int);
    assert(x[t.len() as int] == '>');
}

/// Plain text, with no tag and no entity in it, comes out of
/// [`html_to_text`] with only its whitespace collapsed, and wrapping it in a
/// tag (`<t>text</t>`) changes nothing: tag names never become words.
pub proof fn law_plain_text_passes_through(s: Seq<char>, t: Seq<char>)
    requires
        forall|i: int| 0 <= i < s.len() ==> s[i] != '<' && s[i] != '&',
        t.len() > 0,
        forall|i: int| 0 <= i < t.len() ==> t[i] != '>',
    ensures
        plain_text(s) == collapse_ws(s),
        plain_text(seq!['<'] + t + seq!['>'] + s + seq!['<', '/'] + t + seq!['>']) == collapse_ws(s),
{
    lemma_tag_stripped_plain(s, Seq::empty());
    assert(s + Seq::<char>::empty() =~= s);
    assert(tag_stripped(Seq::<char>::empty()) =~= Seq::<char>::empty());
    assert(s + tag_stripped(Seq::<char>::empty()) =~= s);
    let close = seq!['<', '/'] + t + seq!['>'];
    let x = seq!['<'] + t + seq!['>'] + s + close;
    assert(seq!['<'] + t + seq!['>'] + s + seq!['<', '/'] + t + seq!['>'] =~= x);
    let rest = x.drop_first();
    assert(rest =~= t + seq!['>'] + (s + close));
    lemma_first_gt_after(t, s + close);
    assert(rest.skip(t.len() as int + 1) =~= s + close);
    lemma_tag_stripped_plain(s, close);
    let crest = close.drop_first();
    let slash_t = seq!['/'] + t;
    assert forall|i: int| 0 <= i < slash_t.len() implies slash_t[i] != '>' by {
        if i > 0 {
            assert(slash_t[i] == t[i - 1]);
        }
    }
    assert(crest =~= slash_t + seq!['>'] + Seq::<char>::empty());
    lemma_first_gt_after(slash_t, Seq::empty());
    assert(crest.skip(slash_t.len() as int + 1) =~= Seq::<char>::empty());
    assert(tag_stripped(close) == seq![' '] + tag_stripped(Seq::<char>::empty()));
    assert(tag_stripped(close) =~= seq![' ']);
    assert(tag_stripped(x) == seq![' '] + tag_stripped(s + close));
    assert(tag_stripped(x) =~= seq![' '] + s + seq![' ']);
    crate::text::lemma_words_padded(s);
}

} // verus!
