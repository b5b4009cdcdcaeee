use vstd::prelude::*;

use crate::strutil::{append_str, push_char, spec_trim, str_eq, string_of, trim};

verus! {

/// `pat` first occurs in `s` at `i`.
pub open spec fn spec_first_at(s: Seq<char>, pat: Seq<char>, i: int) -> bool {
    &&& 0 <= i <= s.len() - pat.len()
    &&& s.subrange(i, i + pat.len()) == pat
    &&& forall|j: int| 0 <= j < i ==> #[trigger] s.subrange(j, j + pat.len()) != pat
}

proof fn lemma_first_at_unique(s: Seq<char>, pat: Seq<char>, i: int, j: int)
    requires
        spec_first_at(s, pat, i),
        spec_first_at(s, pat, j),
    ensures
        i == j,
{
    if i < j {
        assert(s.subrange(i, i + pat.len()) != pat);
    } else if j < i {
        assert(s.subrange(j, j + pat.len()) != pat);
    }
}

/// Finds the first occurrence of `pat` in `s`.
fn find_sub(s: &str, pat: &str) -> (r: Option<usize>)
    requires
        pat@.len() > 0,
    ensures
        (match r {
            Some(i) => spec_first_at(s@, pat@, i as int),
            None => forall|i: int| !spec_first_at(s@, pat@, i),
        }),
{
    let n = s.unicode_len();
    let m = pat.unicode_len();
    if m > n {
        proof {
            assert forall|i: int| !spec_first_at(s@, pat@, i) by {}
        }
        return None;
    }
    let mut i: usize = 0;
    while i <= n - m
        invariant
            0 <= i <= n - m + 1,
            1 <= m <= n,
            n == s@.len(),
            m == pat@.len(),
            forall|j: int| 0 <= j < i ==> #[trigger] s@.subrange(j, j + pat@.len()) != pat@,
        decreases n - m - i + 1,
    {
        let piece = s.substring_char(i, i + m);
        if str_eq(piece, pat) {
            proof {
                assert(s@.subrange(i as int, i as int + pat@.len()) == pat@);
            }
            return Some(i);
        }
        i = i + 1;
    }
    proof {
        assert forall|k: int| !spec_first_at(s@, pat@, k) by {
            if 0 <= k <= s@.len() - pat@.len() {
                assert(s@.subrange(k, k + pat@.len()) != pat@);
            }
        }
    }
    None
}

/// What the embedded-content extraction finds in a raw command string: the
/// text between the start and end markers, trimmed, split at its first comma
/// into a command name and a payload.
pub open spec fn spec_extract_embedded(text: Seq<char>) -> Option<(Seq<char>, Seq<char>)> {
    if exists|i: int| spec_first_at(text, "<!-- embedded-content"@, i) {
        let i = choose|i: int| spec_first_at(text, "<!-- embedded-content"@, i);
        let inner0 = text.skip(i + "<!-- embedded-content"@.len());
        if exists|j: int| spec_first_at(inner0, "embedded-content -->"@, j) {
            let j = choose|j: int| spec_first_at(inner0, "embedded-content -->"@, j);
            let content = spec_trim(inner0.take(j));
            if exists|k: int| spec_first_at(content, ","@, k) {
                let k = choose|k: int| spec_first_at(content, ","@, k);
                Some((content.take(k), content.skip(k + 1)))
            } else {
                None
            }
        } else {
            None
        }
    } else {
        None
    }
}

/// Extracts an embedded command from raw text: the part between the
/// embedded-content markers, trimmed and split at the first comma into the
/// command name and its payload.
pub fn extract_embedded_command(text: &String) -> (r: Option<(String, String)>)
    ensures
        (match r {
            Some(cp) => spec_extract_embedded(text@) == Some((cp.0@, cp.1@)),
            None => spec_extract_embedded(text@) is None,
        }),
{
    proof {
        reveal_strlit("<!-- embedded-content");
        reveal_strlit("embedded-content -->");
        reveal_strlit(",");
    }
    let s = text.as_str();
    let start = match find_sub(s, "<!-- embedded-content") {
        Some(i) => i,
        None => {
            return None;
        },
    };
    proof {
        let w = choose|i: int| spec_first_at(text@, "<!-- embedded-content"@, i);
        lemma_first_at_unique(text@, "<!-- embedded-content"@, w, start as int);
    }
    let n = s.unicode_len();
    let inner = s.substring_char(start + 21, n);
    proof {
        assert(inner@ =~= text@.skip(start as int + "<!-- embedded-content"@.len()));
    }
    let end = match find_sub(inner, "embedded-content -->") {
        Some(j) => j,
        None => {
            return None;
        },
    };
    proof {
        let w = choose|j: int| spec_first_at(inner@, "embedded-content -->"@, j);
        lemma_first_at_unique(inner@, "embedded-content -->"@, w, end as int);
    }
    let raw = inner.substring_char(0, end);
    proof {
        assert(raw@ =~= inner@.take(end as int));
    }
    let content = trim(raw);
    let k = match find_sub(content.as_str(), ",") {
        Some(k) => k,
        None => {
            return None;
        },
    };
    proof {
        let w = choose|k: int| spec_first_at(content@, ","@, k);
        lemma_first_at_unique(content@, ","@, w, k as int);
    }
    let cn = content.as_str().unicode_len();
    let cmd = string_of(content.as_str().substring_char(0, k));
    let payload = string_of(content.as_str().substring_char(k + 1, cn));
    proof {
        assert(cmd@ =~= content@.take(k as int));
        assert(payload@ =~= content@.skip(k as int + 1));
    }
    Some((cmd, payload))
}

/// The element names an embedded command may produce, with the inner hint
/// text written into each.
pub open spec fn spec_tag_allowed(tag: Seq<char>) -> bool {
    tag == "iframe"@ || tag == "div"@ || tag == "audio"@ || tag == "video"@
}

pub open spec fn spec_tag_hint(tag: Seq<char>) -> Seq<char> {
    if tag == "audio"@ {
        "audio."@
    } else if tag == "video"@ {
        "video."@
    } else {
        Seq::empty()
    }
}

/// The attributes allowed on each element.
pub open spec fn spec_attr_in_set(tag: Seq<char>, key: Seq<char>) -> bool {
    if tag == "iframe"@ {
        key == "id"@ || key == "class"@ || key == "src"@ || key == "allowfullscreen"@ || key
            == "scrolling"@ || key == "framespacing"@ || key == "frameborder"@ || key == "border"@
            || key == "width"@ || key == "height"@
    } else if tag == "div"@ {
        key == "id"@ || key == "class"@
    } else {
        // audio and video
        key == "id"@ || key == "class"@ || key == "src"@ || key == "controls"@
    }
}

pub open spec fn spec_is_alnum(c: char) -> bool {
    ('0' <= c && c <= '9') || ('a' <= c && c <= 'z') || ('A' <= c && c <= 'Z')
}

pub open spec fn spec_all_alnum(key: Seq<char>) -> bool {
    forall|i: int| 0 <= i < key.len() ==> spec_is_alnum(#[trigger] key[i])
}

/// Attribute-value escaping for the produced markup.
pub open spec fn spec_attr_escape(s: Seq<char>) -> Seq<char>
    decreases s.len(),
{
    if s.len() == 0 {
        Seq::empty()
    } else {
        (if s[0] == '&' {
            "&amp;"@
        } else if s[0] == '<' {
            "&lt;"@
        } else if s[0] == '>' {
            "&gt;"@
        } else if s[0] == '"' {
            "&quot;"@
        } else if s[0] == '\'' {
            "&#39;"@
        } else {
            seq![s[0]]
        }) + spec_attr_escape(s.drop_first())
    }
}

proof fn lemma_attr_escape_snoc(s: Seq<char>, c: char)
    ensures
        spec_attr_escape(s.push(c)) == spec_attr_escape(s) + (if c == '&' {
            "&amp;"@
        } else if c == '<' {
            "&lt;"@
        } else if c == '>' {
            "&gt;"@
        } else if c == '"' {
            "&quot;"@
        } else if c == '\'' {
            "&#39;"@
        } else {
            seq![c]
        }),
    decreases s.len(),
{
    let piece = if c == '&' {
        "&amp;"@
    } else if c == '<' {
        "&lt;"@
    } else if c == '>' {
        "&gt;"@
    } else if c == '"' {
        "&quot;"@
    } else if c == '\'' {
        "&#39;"@
    } else {
        seq![c]
    };
    if s.len() == 0 {
        assert(s.push(c)[0] == c);
        assert(s.push(c).drop_first() =~= Seq::<char>::empty());
        assert(spec_attr_escape(Seq::<char>::empty()) == Seq::<char>::empty());
        assert(spec_attr_escape(s.push(c)) =~= spec_attr_escape(s) + piece);
    } else {
        assert(s.push(c).drop_first() =~= s.drop_first().push(c));
        lemma_attr_escape_snoc(s.drop_first(), c);
        assert(s.push(c)[0] == s[0]);
        assert(spec_attr_escape(s.push(c)) =~= spec_attr_escape(s) + piece);
    }
}

/// Escapes a value for use inside a double-quoted attribute.
pub fn attr_escape(s: &str) -> (r: String)
    ensures
        r@ == spec_attr_escape(s@),
{
    proof {
        reveal_strlit("&amp;");
        reveal_strlit("&lt;");
        reveal_strlit("&gt;");
        reveal_strlit("&quot;");
        reveal_strlit("&#39;");
    }
    let n = s.unicode_len();
    let mut out = String::new();
    let mut i: usize = 0;
    proof {
        assert(s@.subrange(0, 0) =~= Seq::<char>::empty());
        assert(out@ =~= spec_attr_escape(s@.subrange(0, 0)));
    }
    while i < n
        invariant
            0 <= i <= n,
            n == s@.len(),
            out@ == spec_attr_escape(s@.subrange(0, i as int)),
        decreases n - i,
    {
        let c = s.get_char(i);
        if c == '&' {
            append_str(&mut out, "&amp;");
        } else if c == '<' {
            append_str(&mut out, "&lt;");
        } else if c == '>' {
            append_str(&mut out, "&gt;");
        } else if c == '"' {
            append_str(&mut out, "&quot;");
        } else if c == '\'' {
            append_str(&mut out, "&#39;");
        } else {
            push_char(&mut out, c);
        }
        proof {
            assert(s@.subrange(0, i as int + 1) =~= s@.subrange(0, i as int).push(s@[i as int]));
            lemma_attr_escape_snoc(s@.subrange(0, i as int), s@[i as int]);
            assert(out@ =~= spec_attr_escape(s@.subrange(0, i as int + 1)));
        }
        i = i + 1;
    }
    proof {
        assert(s@.subrange(0, n as int) =~= s@);
    }
    out
}

/// The attribute text from position `i` on: every key must be purely
/// alphanumeric and either carry the data prefix or stand in the element's
/// allowlist; a source attribute must have passed the source check. One bad
/// attribute rejects the whole element.
pub open spec fn spec_attrs_from(
    attrs: Seq<(String, String)>,
    src_ok: Seq<bool>,
    tag: Seq<char>,
    i: int,
) -> Option<Seq<char>>
    decreases attrs.len() - i,
{
    if i < 0 || i >= attrs.len() {
        Some(Seq::empty())
    } else {
        let key = attrs[i].0@;
        let val = attrs[i].1@;
        if !spec_all_alnum(key) || !(crate::strutil::spec_starts_with(key, "data-"@)
            || spec_attr_in_set(tag, key)) {
            None
        } else if key == "src"@ && !src_ok[i] {
            None
        } else {
            match spec_attrs_from(attrs, src_ok, tag, i + 1) {
                Some(rest) => Some(
                    " "@ + key + "=\""@ + spec_attr_escape(val) + "\""@ + rest,
                ),
                None => None,
            }
        }
    }
}

/// What an embedded html command renders to, when it is acceptable: the
/// allowlisted element with its checked attributes and hint text.
pub open spec fn spec_render_element(
    tag: Seq<char>,
    attrs: Seq<(String, String)>,
    src_ok: Seq<bool>,
) -> Option<Seq<char>> {
    if !spec_tag_allowed(tag) {
        None
    } else {
        match spec_attrs_from(attrs, src_ok, tag, 0) {
            Some(a) => Some(
                "<"@ + tag + a + ">"@ + spec_tag_hint(tag) + "</"@ + tag + ">"@,
            ),
            None => None,
        }
    }
}

fn is_alnum(c: char) -> (r: bool)
    ensures
        r == spec_is_alnum(c),
{
    ('0' <= c && c <= '9') || ('a' <= c && c <= 'z') || ('A' <= c && c <= 'Z')
}

fn all_alnum(key: &str) -> (r: bool)
    ensures
        r == spec_all_alnum(key@),
{
    let n = key.unicode_len();
    let mut i: usize = 0;
    while i < n
        invariant
            0 <= i <= n,
            n == key@.len(),
            forall|j: int| 0 <= j < i ==> spec_is_alnum(#[trigger] key@[j]),
        decreases n - i,
    {
        if !is_alnum(key.get_char(i)) {
            return false;
        }
        i = i + 1;
    }
    true
}

fn attr_in_set(tag: &str, key: &str) -> (r: bool)
    requires
        spec_tag_allowed(tag@),
    ensures
        r == spec_attr_in_set(tag@, key@),
{
    if str_eq(tag, "iframe") {
        str_eq(key, "id") || str_eq(key, "class") || str_eq(key, "src") || str_eq(
            key,
            "allowfullscreen",
        ) || str_eq(key, "scrolling") || str_eq(key, "framespacing") || str_eq(
            key,
            "frameborder",
        ) || str_eq(key, "border") || str_eq(key, "width") || str_eq(key, "height")
    } else if str_eq(tag, "div") {
        str_eq(key, "id") || str_eq(key, "class")
    } else {
        str_eq(key, "id") || str_eq(key, "class") || str_eq(key, "src") || str_eq(key, "controls")
    }
}

/// Renders an embedded html command to markup, or rejects it: only the
/// allowlisted elements pass, attribute keys must be purely alphanumeric and
/// allowlisted for the element, attribute values are escaped, and a source
/// attribute passes only when its source check (`src_ok`, computed outside
/// per attribute) succeeded.
pub fn render_allowed_element(tag: &String, attrs: &Vec<(String, String)>, src_ok: &Vec<bool>)
    -> (r: Option<String>)
    requires
        src_ok@.len() == attrs@.len(),
    ensures
        (match r {
            Some(html) => spec_render_element(tag@, attrs@, src_ok@) == Some(html@),
            None => spec_render_element(tag@, attrs@, src_ok@) is None,
        }),
{
    let tag_ok = str_eq(tag.as_str(), "iframe") || str_eq(tag.as_str(), "div") || str_eq(
        tag.as_str(),
        "audio",
    ) || str_eq(tag.as_str(), "video");
    if !tag_ok {
        return None;
    }
    let n = attrs.len();
    let mut acc = String::new();
    let mut i: usize = 0;
    proof {
        assert(acc@ =~= Seq::<char>::empty());
    }
    while i < n
        invariant
            0 <= i <= n,
            n == attrs@.len(),
            n == src_ok@.len(),
            spec_tag_allowed(tag@),
            (match spec_attrs_from(attrs@, src_ok@, tag@, 0) {
                Some(full) => spec_attrs_from(attrs@, src_ok@, tag@, i as int) matches Some(rest)
                    && full == acc@ + rest,
                None => spec_attrs_from(attrs@, src_ok@, tag@, i as int) is None,
            }),
        decreases n - i,
    {
        let key = &attrs[i].0;
        let val = &attrs[i].1;
        let key_ok = all_alnum(key.as_str()) && (crate::strutil::str_starts_with(
            key.as_str(),
            "data-",
        ) || attr_in_set(tag.as_str(), key.as_str()));
        if !key_ok {
            return None;
        }
        if str_eq(key.as_str(), "src") && !src_ok[i] {
            return None;
        }
        let ghost acc0 = acc@;
        append_str(&mut acc, " ");
        append_str(&mut acc, key.as_str());
        append_str(&mut acc, "=\"");
        let esc = attr_escape(val.as_str());
        append_str(&mut acc, esc.as_str());
        append_str(&mut acc, "\"");
        proof {
            let piece = " "@ + attrs@[i as int].0@ + "=\""@ + spec_attr_escape(
                attrs@[i as int].1@,
            ) + "\""@;
            assert(acc@ =~= acc0 + piece);
            match spec_attrs_from(attrs@, src_ok@, tag@, 0) {
                Some(full) => {
                    let rest1 = spec_attrs_from(attrs@, src_ok@, tag@, i as int + 1);
                    assert(rest1 is Some);
                    assert(full =~= acc@ + rest1->0);
                },
                None => {},
            }
        }
        i = i + 1;
    }
    let mut out = string_of("<");
    append_str(&mut out, tag.as_str());
    append_str(&mut out, acc.as_str());
    append_str(&mut out, ">");
    if str_eq(tag.as_str(), "audio") {
        append_str(&mut out, "audio.");
    } else if str_eq(tag.as_str(), "video") {
        append_str(&mut out, "video.");
    }
    append_str(&mut out, "</");
    append_str(&mut out, tag.as_str());
    append_str(&mut out, ">");
    proof {
        assert(out@ =~= "<"@ + tag@ + acc@ + ">"@ + spec_tag_hint(tag@) + "</"@ + tag@ + ">"@);
    }
    Some(out)
}

} // verus!
