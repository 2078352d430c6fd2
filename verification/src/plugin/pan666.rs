//! The pan666 plugin: a forum whose search API answers with discussions
//! and the HTML of their most relevant posts; share links and passwords
//! are read from the posts' text.
use vstd::prelude::*;
use crate::clock::{parse_rfc3339_ms, spec_rfc3339_ms};
use crate::model::{Link, LinkView, SearchResult, SearchResultView, links_view, results_view};
use crate::plugin::{DEFAULT_CHANNEL_SCORE, DEFAULT_PRIORITY, filter_results_by_keyword, keyword_filtered};
use crate::text::{
    concat2, digits_in_base, form_urlencode, spec_form_urlencode, u64_text,
    chars_of, contains_exec, find_from_exec, join_chars, join_with, lemma_find_from, matches_at,
    nonempty_pieces, replace_chars, seq_contains, seq_find, spec_replace, spec_trim, split_char,
    split_chars, string_of, sub_chars, trim_chars,
};

verus! {

broadcast use vstd::string::group_string_axioms;

/// The pan666 search plugin.
pub struct Pan666Plugin;

// ---------------------------------------------------------------------
// Post HTML to text
// ---------------------------------------------------------------------

/// Line breaks (`<br>`, `<br/>`, `<br />`) written as newlines.
pub open spec fn breaks_as_newlines(h: Seq<char>) -> Seq<char> {
    spec_replace(
        spec_replace(spec_replace(h, "<br>"@, "\n"@), "<br/>"@, "\n"@),
        "<br />"@,
        "\n"@,
    )
}

/// Whether the text `s` ends inside a tag (after a `<` not yet closed by `>`).
pub open spec fn in_tag_after(s: Seq<char>) -> bool
    decreases s.len(),
{
    if s.len() == 0 {
        false
    } else if s.last() == '<' {
        true
    } else if s.last() == '>' {
        false
    } else {
        in_tag_after(s.drop_last())
    }
}

/// The text outside tags: `<`, `>` and everything between them dropped.
pub open spec fn strip_tags(s: Seq<char>) -> Seq<char>
    decreases s.len(),
{
    if s.len() == 0 {
        s
    } else {
        let p = strip_tags(s.drop_last());
        let c = s.last();
        if c == '<' || c == '>' || in_tag_after(s.drop_last()) {
            p
        } else {
            p.push(c)
        }
    }
}

/// The common character entities decoded, in this order: `&amp;`, `&lt;`,
/// `&gt;`, `&quot;`, `&apos;`, `&#39;`, `&nbsp;`.
pub open spec fn decode_entities(s: Seq<char>) -> Seq<char> {
    let s1 = spec_replace(s, "&amp;"@, "&"@);
    let s2 = spec_replace(s1, "&lt;"@, "<"@);
    let s3 = spec_replace(s2, "&gt;"@, ">"@);
    let s4 = spec_replace(s3, "&quot;"@, "\""@);
    let s5 = spec_replace(s4, "&apos;"@, "'"@);
    let s6 = spec_replace(s5, "&#39;"@, "'"@);
    spec_replace(s6, "&nbsp;"@, " "@)
}

/// The text of a post's HTML: line breaks kept, tags removed, entities
/// decoded, then the lines trimmed and the empty ones dropped.
pub open spec fn clean_html_of(h: Seq<char>) -> Seq<char> {
    let t = decode_entities(strip_tags(breaks_as_newlines(h)));
    join_with(nonempty_pieces(split_char(t, '\n').map_values(|l: Seq<char>| spec_trim(l))), "\n"@)
}

fn replace_lit(h: Vec<char>, n: &str, r: &str) -> (out: Vec<char>)
    requires
        n@.len() > 0,
    ensures
        out@ == spec_replace(h@, n@, r@),
{
    let nv = chars_of(n);
    let rv = chars_of(r);
    replace_chars(h.as_slice(), nv.as_slice(), rv.as_slice())
}

/// Plain text of a post's HTML (see [`clean_html_of`]).
pub fn clean_html(html: &str) -> (r: String)
    ensures
        r@ == clean_html_of(html@),
{
    proof {
        reveal_strlit("<br>");
        reveal_strlit("<br/>");
        reveal_strlit("<br />");
        reveal_strlit("&amp;");
        reveal_strlit("&lt;");
        reveal_strlit("&gt;");
        reveal_strlit("&quot;");
        reveal_strlit("&apos;");
        reveal_strlit("&#39;");
        reveal_strlit("&nbsp;");
    }
    let h = chars_of(html);
    let h = replace_lit(h, "<br>", "\n");
    let h = replace_lit(h, "<br/>", "\n");
    let h = replace_lit(h, "<br />", "\n");
    let mut text: Vec<char> = Vec::new();
    let mut in_tag = false;
    let mut i: usize = 0;
    while i < h.len()
        invariant
            i <= h@.len(),
            text@ == strip_tags(h@.take(i as int)),
            in_tag == in_tag_after(h@.take(i as int)),
        decreases h@.len() - i,
    {
        proof {
            assert(h@.take(i + 1).drop_last() =~= h@.take(i as int));
            assert(h@.take(i + 1).last() == h@[i as int]);
        }
        let c = h[i];
        if c == '<' {
            in_tag = true;
        } else if c == '>' {
            in_tag = false;
        } else if !in_tag {
            text.push(c);
        }
        i = i + 1;
    }
    assert(h@.take(h@.len() as int) =~= h@);
    let t = replace_lit(text, "&amp;", "&");
    let t = replace_lit(t, "&lt;", "<");
    let t = replace_lit(t, "&gt;", ">");
    let t = replace_lit(t, "&quot;", "\"");
    let t = replace_lit(t, "&apos;", "'");
    let t = replace_lit(t, "&#39;", "'");
    let t = replace_lit(t, "&nbsp;", " ");
    let lines = split_chars(t.as_slice(), '\n');
    let ghost tv = lines@.map_values(|v: Vec<char>| v@).map_values(|l: Seq<char>| spec_trim(l));
    let mut kept: Vec<Vec<char>> = Vec::new();
    let mut k: usize = 0;
    while k < lines.len()
        invariant
            k <= lines@.len(),
            tv == lines@.map_values(|v: Vec<char>| v@).map_values(|l: Seq<char>| spec_trim(l)),
            kept@.map_values(|v: Vec<char>| v@) == nonempty_pieces(tv.take(k as int)),
        decreases lines@.len() - k,
    {
        proof {
            assert(tv.take(k + 1).drop_last() =~= tv.take(k as int));
            assert(tv.take(k + 1).last() == spec_trim(lines@[k as int]@));
        }
        let l = trim_chars(lines[k].as_slice());
        if l.len() > 0 {
            let ghost before = kept@.map_values(|v: Vec<char>| v@);
            kept.push(l);
            assert(kept@.map_values(|v: Vec<char>| v@) =~= before.push(l@));
        }
        k = k + 1;
    }
    assert(tv.take(tv.len() as int) =~= tv);
    let nl: Vec<char> = vec!['\n'];
    proof {
        reveal_strlit("\n");
    }
    assert(nl@ =~= "\n"@);
    let out = join_chars(&kept, nl.as_slice());
    string_of(out.as_slice())
}

// ---------------------------------------------------------------------
// URLs and their passwords
// ---------------------------------------------------------------------

/// Characters that end a URL in running text.
pub open spec fn url_stop(c: char) -> bool {
    c == ' ' || c == '\t' || c == '\n' || c == '"' || c == '\'' || c == '<' || c == '>' || c == ')'
        || c == ']' || c == '}' || c == ',' || c == ';'
}

/// The first position at or after `i` holding a URL-ending character, or
/// the length of `s`.
pub open spec fn stop_from(s: Seq<char>, i: int) -> int
    decreases s.len() - i,
{
    if i < 0 || i >= s.len() {
        s.len() as int
    } else if url_stop(s[i]) {
        i
    } else {
        stop_from(s, i + 1)
    }
}

/// Where the URL of a text starts: the first `http://`, or else the first
/// `https://`.
pub open spec fn url_start(text: Seq<char>) -> Option<int> {
    match seq_find(text, "http://"@) {
        Some(p) => Some(p),
        None => seq_find(text, "https://"@),
    }
}

/// The URL in a text: from its start (see [`url_start`]) up to the first
/// URL-ending character.
pub open spec fn extract_url_of(text: Seq<char>) -> Option<Seq<char>> {
    match url_start(text) {
        Some(st) => Some(text.subrange(st, stop_from(text, st))),
        None => None,
    }
}

fn url_in(t: &[char]) -> (r: Option<Vec<char>>)
    ensures
        match r {
            Some(u) => extract_url_of(t@) == Some(u@),
            None => extract_url_of(t@) is None,
        },
{
    proof {
        reveal_strlit("http://");
        reveal_strlit("https://");
    }
    let p1 = chars_of("http://");
    let p2 = chars_of("https://");
    let st = match find_from_exec(t, p1.as_slice(), 0) {
        Some(p) => p,
        None => match find_from_exec(t, p2.as_slice(), 0) {
            Some(p) => p,
            None => {
                return None;
            },
        },
    };
    proof {
        lemma_find_from(t@, p1@, 0);
        lemma_find_from(t@, p2@, 0);
    }
    assert(st <= t@.len());
    let mut e: usize = st;
    while e < t.len() && !is_url_stop(t[e])
        invariant
            st <= e <= t@.len(),
            stop_from(t@, st as int) == stop_from(t@, e as int),
        decreases t@.len() - e,
    {
        e = e + 1;
    }
    Some(sub_chars(t, st, e))
}

fn is_url_stop(c: char) -> (b: bool)
    ensures
        b == url_stop(c),
{
    c == ' ' || c == '\t' || c == '\n' || c == '"' || c == '\'' || c == '<' || c == '>' || c == ')'
        || c == ']' || c == '}' || c == ',' || c == ';'
}

/// The URL in a text (see [`extract_url_of`]).
pub fn extract_url(text: &str) -> (r: Option<String>)
    ensures
        crate::model::opt_view(r) == extract_url_of(text@),
{
    let t = chars_of(text);
    match url_in(t.as_slice()) {
        Some(u) => Some(string_of(u.as_slice())),
        None => None,
    }
}

/// The value of query parameter `p` (written with its `=`) in a URL: from
/// after the first occurrence of `p` up to the next `&` (or, when there is
/// none, the next `#`, or the end); `None` when `p` is absent or the value
/// is empty.
pub open spec fn param_value(url: Seq<char>, p: Seq<char>) -> Option<Seq<char>> {
    match seq_find(url, p) {
        None => None,
        Some(pos) => {
            let start = pos + p.len();
            let rest = url.subrange(start, url.len() as int);
            let end = match seq_find(rest, "&"@) {
                Some(k) => start + k,
                None => match seq_find(rest, "#"@) {
                    Some(k) => start + k,
                    None => url.len() as int,
                },
            };
            if start < end {
                Some(url.subrange(start, end))
            } else {
                None
            }
        },
    }
}

/// The password written in a URL: the first non-empty value among the
/// parameters `pwd`, `password`, `passcode` and `code`.
pub open spec fn password_in_url(url: Seq<char>) -> Option<Seq<char>> {
    match param_value(url, "pwd="@) {
        Some(v) => Some(v),
        None => match param_value(url, "password="@) {
            Some(v) => Some(v),
            None => match param_value(url, "passcode="@) {
                Some(v) => Some(v),
                None => param_value(url, "code="@),
            },
        },
    }
}

fn param_in(u: &[char], p: &str) -> (r: Option<Vec<char>>)
    ensures
        match r {
            Some(v) => param_value(u@, p@) == Some(v@),
            None => param_value(u@, p@) is None,
        },
{
    proof {
        reveal_strlit("&");
        reveal_strlit("#");
    }
    let pv = chars_of(p);
    let f = find_from_exec(u, pv.as_slice(), 0);
    proof {
        lemma_find_from(u@, pv@, 0);
    }
    let pos = match f {
        Some(pos) => pos,
        None => {
            return None;
        },
    };
    assert(matches_at(u@, pv@, pos as int));
    let ul = u.len();
    assert(pos + pv@.len() <= ul);
    let start = pos + pv.len();
    let rest = sub_chars(u, start, u.len());
    let amp = chars_of("&");
    let hash = chars_of("#");
    let fa = find_from_exec(rest.as_slice(), amp.as_slice(), 0);
    let fh = find_from_exec(rest.as_slice(), hash.as_slice(), 0);
    proof {
        lemma_find_from(rest@, amp@, 0);
        lemma_find_from(rest@, hash@, 0);
    }
    let end: usize = match fa {
        Some(k) => start + k,
        None => match fh {
            Some(k) => start + k,
            None => u.len(),
        },
    };
    if start < end {
        Some(sub_chars(u, start, end))
    } else {
        None
    }
}

fn password_in(u: &[char]) -> (r: Option<Vec<char>>)
    ensures
        match r {
            Some(v) => password_in_url(u@) == Some(v@),
            None => password_in_url(u@) is None,
        },
{
    if let Some(v) = param_in(u, "pwd=") {
        return Some(v);
    }
    if let Some(v) = param_in(u, "password=") {
        return Some(v);
    }
    if let Some(v) = param_in(u, "passcode=") {
        return Some(v);
    }
    param_in(u, "code=")
}

/// The password written in a URL (see [`password_in_url`]).
pub fn extract_password_from_url(url: &str) -> (r: Option<String>)
    ensures
        crate::model::opt_view(r) == password_in_url(url@),
{
    let u = chars_of(url);
    match password_in(u.as_slice()) {
        Some(v) => Some(string_of(v.as_slice())),
        None => None,
    }
}


// ---------------------------------------------------------------------
// Links and passwords in a post's text
// ---------------------------------------------------------------------

/// The drive domains recognised in post text, with their drive kinds.
pub open spec fn domain_rules() -> Seq<(Seq<char>, Seq<char>)> {
    seq![("pan.baidu.com"@, "baidu"@), ("aliyundrive.com"@, "aliyun"@), ("cloud.189.cn"@, "tianyi"@)]
}

/// The words that announce a password.
pub open spec fn password_words() -> Seq<Seq<char>> {
    seq!["提取码"@, "密码"@, "访问码"@]
}

/// A link found on a line: (line number, drive kind, URL).
pub type LinkFound = (int, Seq<char>, Seq<char>);

/// A password found on a line: (line number, password).
pub type PasswordFound = (int, Seq<char>);

/// The links of line `line` (number `pos`) for the domain rules `rules`:
/// one per rule whose domain the line contains, when the line has a URL,
/// that URL.
pub open spec fn rule_links(line: Seq<char>, rules: Seq<(Seq<char>, Seq<char>)>, pos: int) -> Seq<
    LinkFound,
>
    decreases rules.len(),
{
    if rules.len() == 0 {
        Seq::empty()
    } else {
        let prev = rule_links(line, rules.drop_last(), pos);
        match extract_url_of(line) {
            Some(u) if seq_contains(line, rules.last().0) => prev.push((pos, rules.last().1, u)),
            _ => prev,
        }
    }
}

/// The password written after the first `:` of a line: the rest of the
/// line, trimmed, when something follows the colon and it takes at most
/// 10 bytes of UTF-8.
pub open spec fn line_password(line: Seq<char>) -> Option<Seq<char>> {
    match seq_find(line, ":"@) {
        Some(c) => {
            let p = spec_trim(line.subrange(c + 1, line.len() as int));
            if c + 1 < line.len() && (vstd::utf8::encode_utf8(p).len() as usize) <= 10 {
                Some(p)
            } else {
                None
            }
        },
        None => None,
    }
}

/// The passwords of line `line` (number `pos`): one per word of `words`
/// that the line contains, when the line has a password after a colon.
pub open spec fn word_passwords(line: Seq<char>, words: Seq<Seq<char>>, pos: int) -> Seq<
    PasswordFound,
>
    decreases words.len(),
{
    if words.len() == 0 {
        Seq::empty()
    } else {
        let prev = word_passwords(line, words.drop_last(), pos);
        match line_password(line) {
            Some(p) if seq_contains(line, words.last()) => prev.push((pos, p)),
            _ => prev,
        }
    }
}

/// The links of all lines, line by line (each line trimmed).
pub open spec fn lines_links(lines: Seq<Seq<char>>) -> Seq<LinkFound>
    decreases lines.len(),
{
    if lines.len() == 0 {
        Seq::empty()
    } else {
        lines_links(lines.drop_last()) + rule_links(
            spec_trim(lines.last()),
            domain_rules(),
            lines.len() - 1,
        )
    }
}

/// The passwords of all lines, line by line (each line trimmed).
pub open spec fn lines_passwords(lines: Seq<Seq<char>>) -> Seq<PasswordFound>
    decreases lines.len(),
{
    if lines.len() == 0 {
        Seq::empty()
    } else {
        lines_passwords(lines.drop_last()) + word_passwords(
            spec_trim(lines.last()),
            password_words(),
            lines.len() - 1,
        )
    }
}

/// Distance between line numbers.
pub open spec fn line_distance(a: int, b: int) -> int {
    if a > b {
        a - b
    } else {
        b - a
    }
}

/// The nearest password to line `pos` and its distance: the first of the
/// nearest ones (distance `usize::MAX` when there is none).
pub open spec fn closest_password(pws: Seq<PasswordFound>, pos: int) -> (int, Seq<char>)
    decreases pws.len(),
{
    if pws.len() == 0 {
        (usize::MAX as int, Seq::empty())
    } else {
        let prev = closest_password(pws.drop_last(), pos);
        let d = line_distance(pws.last().0, pos);
        if d < prev.0 {
            (d, pws.last().1)
        } else {
            prev
        }
    }
}

/// The password of a link found on line `pos`: the one in its URL, else
/// the nearest password at most 3 lines away, else empty.
pub open spec fn chosen_password(url: Seq<char>, pos: int, pws: Seq<PasswordFound>) -> Seq<char> {
    match password_in_url(url) {
        Some(p) => p,
        None => {
            let c = closest_password(pws, pos);
            if c.0 <= 3 {
                c.1
            } else {
                Seq::empty()
            }
        },
    }
}

/// The links of a post's text, in the order found, with their passwords.
pub open spec fn text_links(content: Seq<char>) -> Seq<crate::model::LinkView> {
    let lines = split_char(content, '\n');
    let found = lines_links(lines);
    let pws = lines_passwords(lines);
    Seq::new(
        found.len(),
        |i: int|
            crate::model::LinkView {
                disk_type: found[i].1,
                url: found[i].2,
                password: chosen_password(found[i].2, found[i].0, pws),
                datetime: None,
                work_title: None,
            },
    )
}

/// A line announcing a password with no `:` has no full-width `：` either
/// (the text after a full-width colon is never read).
pub open spec fn line_reads_safely(line: Seq<char>) -> bool {
    (seq_contains(line, "提取码"@) || seq_contains(line, "密码"@) || seq_contains(line, "访问码"@))
        && !seq_contains(line, ":"@) ==> !seq_contains(line, "："@)
}

/// Every (trimmed) line of the text reads safely.
pub open spec fn text_reads_safely(content: Seq<char>) -> bool {
    forall|i: int|
        0 <= i < split_char(content, '\n').len() ==> line_reads_safely(
            spec_trim(#[trigger] split_char(content, '\n')[i]),
        )
}


/// View of the links found so far.
pub open spec fn found_view(v: Seq<(usize, String, String)>) -> Seq<LinkFound> {
    v.map_values(|t: (usize, String, String)| (t.0 as int, t.1@, t.2@))
}

/// View of the passwords found so far.
pub open spec fn pws_view(v: Seq<(usize, String)>) -> Seq<PasswordFound> {
    v.map_values(|t: (usize, String)| (t.0 as int, t.1@))
}

fn password_of_line(line: &[char]) -> (r: Option<String>)
    ensures
        crate::model::opt_view(r) == line_password(line@),
{
    proof {
        reveal_strlit(":");
    }
    let colon = chars_of(":");
    let f = find_from_exec(line, colon.as_slice(), 0);
    proof {
        lemma_find_from(line@, colon@, 0);
    }
    match f {
        None => None,
        Some(c) => {
            let n = line.len();
            let rest = sub_chars(line, c + 1, n);
            let t = trim_chars(rest.as_slice());
            let p = string_of(t.as_slice());
            if c + 1 < n && p.as_str().len() <= 10 {
                Some(p)
            } else {
                None
            }
        },
    }
}

/// Whether every line of a text reads safely (see [`text_reads_safely`]).
pub fn reads_safely(content: &str) -> (r: bool)
    ensures
        r == text_reads_safely(content@),
{
    proof {
        reveal_strlit(":");
    }
    let cs = chars_of(content);
    let lines = split_chars(cs.as_slice(), '\n');
    let ghost lv = lines@.map_values(|v: Vec<char>| v@);
    let w1 = chars_of("提取码");
    let w2 = chars_of("密码");
    let w3 = chars_of("访问码");
    let colon = chars_of(":");
    let wide = chars_of("：");
    let mut i: usize = 0;
    while i < lines.len()
        invariant
            i <= lines@.len(),
            lv == lines@.map_values(|v: Vec<char>| v@),
            lv == split_char(content@, '\n'),
            w1@ == "提取码"@,
            w2@ == "密码"@,
            w3@ == "访问码"@,
            colon@ == ":"@,
            wide@ == "："@,
            forall|j: int| 0 <= j < i ==> line_reads_safely(spec_trim(#[trigger] lv[j])),
        decreases lines@.len() - i,
    {
        let line = trim_chars(lines[i].as_slice());
        let l = line.as_slice();
        let announces = contains_exec(l, w1.as_slice()) || contains_exec(l, w2.as_slice())
            || contains_exec(l, w3.as_slice());
        if announces && !contains_exec(l, colon.as_slice()) && contains_exec(l, wide.as_slice()) {
            assert(!line_reads_safely(spec_trim(lv[i as int])));
            return false;
        }
        i = i + 1;
    }
    true
}

/// The links of a post's text with their passwords (see [`text_links`]).
pub fn extract_links_from_text(content: &str) -> (r: Vec<crate::model::Link>)
    requires
        text_reads_safely(content@),
    ensures
        crate::model::links_view(r@) == text_links(content@),
{
    let cs = chars_of(content);
    let lines = split_chars(cs.as_slice(), '\n');
    let ghost lv = lines@.map_values(|v: Vec<char>| v@);
    let rules: Vec<(&str, &str)> = vec![
        ("pan.baidu.com", "baidu"),
        ("aliyundrive.com", "aliyun"),
        ("cloud.189.cn", "tianyi"),
    ];
    let ghost rv = rules@.map_values(|t: (&str, &str)| (t.0@, t.1@));
    assert(rv =~= domain_rules());
    let words: Vec<&str> = vec!["提取码", "密码", "访问码"];
    let ghost wv = words@.map_values(|s: &str| s@);
    assert(wv =~= password_words());
    let mut found: Vec<(usize, String, String)> = Vec::new();
    let mut pws: Vec<(usize, String)> = Vec::new();
    let mut i: usize = 0;
    while i < lines.len()
        invariant
            i <= lines@.len(),
            lv == lines@.map_values(|v: Vec<char>| v@),
            rv == rules@.map_values(|t: (&str, &str)| (t.0@, t.1@)),
            rv == domain_rules(),
            wv == words@.map_values(|s: &str| s@),
            wv == password_words(),
            found_view(found@) == lines_links(lv.take(i as int)),
            pws_view(pws@) == lines_passwords(lv.take(i as int)),
            forall|m: int| 0 <= m < found@.len() ==> (#[trigger] found@[m]).0 < i,
            forall|m: int| 0 <= m < pws@.len() ==> (#[trigger] pws@[m]).0 < i,
        decreases lines@.len() - i,
    {
        proof {
            assert(lv.take(i + 1).drop_last() =~= lv.take(i as int));
            assert(lv.take(i + 1).last() == lines@[i as int]@);
        }
        let line = trim_chars(lines[i].as_slice());
        let url = url_in(line.as_slice());
        let ghost f0 = found_view(found@);
        let mut k: usize = 0;
        while k < rules.len()
            invariant
                k <= rules@.len(),
                i < lines@.len(),
                rv == rules@.map_values(|t: (&str, &str)| (t.0@, t.1@)),
                match url {
                    Some(u) => extract_url_of(line@) == Some(u@),
                    None => extract_url_of(line@) is None,
                },
                found_view(found@) == f0 + rule_links(line@, rv.take(k as int), i as int),
                forall|m: int| 0 <= m < found@.len() ==> (#[trigger] found@[m]).0 <= i,
                forall|m: int| 0 <= m < f0.len() ==> (#[trigger] found@[m]).0 < i,
                f0.len() <= found@.len(),
            decreases rules@.len() - k,
        {
            proof {
                assert(rv.take(k + 1).drop_last() =~= rv.take(k as int));
                assert(rv.take(k + 1).last() == (rules@[k as int].0@, rules@[k as int].1@));
            }
            let d = chars_of(rules[k].0);
            if contains_exec(line.as_slice(), d.as_slice()) {
                match &url {
                    Some(u) => {
                        let ghost before = found_view(found@);
                        let t = (i, rules[k].1.to_owned(), string_of(u.as_slice()));
                        found.push(t);
                        assert(found_view(found@) =~= before.push((i as int, t.1@, t.2@)));
                    },
                    None => {},
                }
            }
            k = k + 1;
        }
        assert(rv.take(rv.len() as int) =~= rv);
        let pw = password_of_line(line.as_slice());
        let ghost p0 = pws_view(pws@);
        let mut k: usize = 0;
        while k < words.len()
            invariant
                k <= words@.len(),
                i < lines@.len(),
                wv == words@.map_values(|s: &str| s@),
                crate::model::opt_view(pw) == line_password(line@),
                pws_view(pws@) == p0 + word_passwords(line@, wv.take(k as int), i as int),
                forall|m: int| 0 <= m < pws@.len() ==> (#[trigger] pws@[m]).0 <= i,
                forall|m: int| 0 <= m < p0.len() ==> (#[trigger] pws@[m]).0 < i,
                p0.len() <= pws@.len(),
            decreases words@.len() - k,
        {
            proof {
                assert(wv.take(k + 1).drop_last() =~= wv.take(k as int));
                assert(wv.take(k + 1).last() == words@[k as int]@);
            }
            let w = chars_of(words[k]);
            if contains_exec(line.as_slice(), w.as_slice()) {
                match &pw {
                    Some(p) => {
                        let ghost before = pws_view(pws@);
                        let t = (i, p.clone());
                        pws.push(t);
                        assert(pws_view(pws@) =~= before.push((i as int, t.1@)));
                    },
                    None => {},
                }
            }
            k = k + 1;
        }
        assert(wv.take(wv.len() as int) =~= wv);
        i = i + 1;
    }
    assert(lv.take(lv.len() as int) =~= lv);
    let ghost fv = found_view(found@);
    let ghost pv = pws_view(pws@);
    let mut out: Vec<crate::model::Link> = Vec::new();
    let mut j: usize = 0;
    while j < found.len()
        invariant
            j <= found@.len(),
            fv == found_view(found@),
            pv == pws_view(pws@),
            forall|m: int| 0 <= m < found@.len() ==> (#[trigger] found@[m]).0 < lines@.len(),
            forall|m: int| 0 <= m < pws@.len() ==> (#[trigger] pws@[m]).0 < lines@.len(),
            out@.len() == j,
            forall|m: int|
                0 <= m < j ==> (#[trigger] out@[m])@ == (crate::model::LinkView {
                    disk_type: fv[m].1,
                    url: fv[m].2,
                    password: chosen_password(fv[m].2, fv[m].0, pv),
                    datetime: None,
                    work_title: None,
                }),
        decreases found@.len() - j,
    {
        let pos = found[j].0;
        let uc = chars_of(found[j].2.as_str());
        let password = match password_in(uc.as_slice()) {
            Some(p) => string_of(p.as_slice()),
            None => {
                let mut min_dist: usize = usize::MAX;
                let mut closest = String::new();
                let mut m: usize = 0;
                while m < pws.len()
                    invariant
                        m <= pws@.len(),
                        pv == pws_view(pws@),
                        pos < lines@.len(),
                        forall|q: int| 0 <= q < pws@.len() ==> (#[trigger] pws@[q]).0 < lines@.len(),
                        (min_dist as int, closest@) == closest_password(pv.take(m as int), pos as int),
                    decreases pws@.len() - m,
                {
                    proof {
                        assert(pv.take(m + 1).drop_last() =~= pv.take(m as int));
                        assert(pv.take(m + 1).last() == (pws@[m as int].0 as int, pws@[m as int].1@));
                    }
                    let q = pws[m].0;
                    let d: usize = if q > pos { q - pos } else { pos - q };
                    if d < min_dist {
                        min_dist = d;
                        closest = pws[m].1.clone();
                    }
                    m = m + 1;
                }
                assert(pv.take(pv.len() as int) =~= pv);
                if min_dist <= 3 {
                    closest
                } else {
                    String::new()
                }
            },
        };
        let link = crate::model::Link {
            disk_type: found[j].1.clone(),
            url: found[j].2.clone(),
            password,
            datetime: None,
            work_title: None,
        };
        out.push(link);
        j = j + 1;
    }
    assert(crate::model::links_view(out@) =~= text_links(content@));
    out
}


// ---------------------------------------------------------------------
// Requests
// ---------------------------------------------------------------------

/// A number drawn uniformly from `lo` (included) to `hi` (excluded) by
/// `rand::thread_rng().gen_range`, which panics on an empty range.
#[verifier::external_body]
fn random_in(lo: u32, hi: u32) -> (r: u32)
    requires
        lo < hi,
    ensures
        lo <= r < hi,
{
    rand::Rng::gen_range(&mut rand::thread_rng(), lo..hi)
}

/// The browser user agents sent with requests.
pub open spec fn user_agents() -> Seq<Seq<char>> {
    seq![
        "Mozilla/5.0 (Windows NT 10.0; Win64; x64) AppleWebKit/537.36 (KHTML, like Gecko) Chrome/91.0.4472.124 Safari/537.36"@,
        "Mozilla/5.0 (Windows NT 10.0; Win64; x64) AppleWebKit/537.36 (KHTML, like Gecko) Chrome/92.0.4515.107 Safari/537.36"@,
        "Mozilla/5.0 (Macintosh; Intel Mac OS X 10_15_7) AppleWebKit/605.1.15 (KHTML, like Gecko) Version/14.1.2 Safari/605.1.15"@,
        "Mozilla/5.0 (Windows NT 10.0; Win64; x64; rv:90.0) Gecko/20100101 Firefox/90.0"@,
    ]
}

/// One of the browser user agents, chosen at random.
pub fn random_ua() -> (r: String)
    ensures
        exists|i: int| 0 <= i < user_agents().len() && r@ == #[trigger] user_agents()[i],
{
    let uas: Vec<&str> = vec![
        "Mozilla/5.0 (Windows NT 10.0; Win64; x64) AppleWebKit/537.36 (KHTML, like Gecko) Chrome/91.0.4472.124 Safari/537.36",
        "Mozilla/5.0 (Windows NT 10.0; Win64; x64) AppleWebKit/537.36 (KHTML, like Gecko) Chrome/92.0.4515.107 Safari/537.36",
        "Mozilla/5.0 (Macintosh; Intel Mac OS X 10_15_7) AppleWebKit/605.1.15 (KHTML, like Gecko) Version/14.1.2 Safari/605.1.15",
        "Mozilla/5.0 (Windows NT 10.0; Win64; x64; rv:90.0) Gecko/20100101 Firefox/90.0",
    ];
    assert(uas@.map_values(|s: &str| s@) =~= user_agents());
    let k = random_in(0, 4) as usize;
    let r = uas[k].to_owned();
    assert(r@ == user_agents()[k as int]);
    r
}

/// The dotted text of an IPv4 address.
pub open spec fn ip_text(a: nat, b: nat, c: nat, d: nat) -> Seq<char> {
    digits_in_base(a, 10) + "."@ + digits_in_base(b, 10) + "."@ + digits_in_base(c, 10) + "."@
        + digits_in_base(d, 10)
}

/// A random IPv4 address, with first byte from 1 to 223 and last byte
/// from 1 to 254.
pub fn random_ip() -> (r: String)
    ensures
        exists|a: nat, b: nat, c: nat, d: nat|
            1 <= a < 224 && b < 256 && c < 256 && 1 <= d < 255 && r@ == #[trigger] ip_text(a, b, c, d),
{
    let a = random_in(1, 224);
    let b = random_in(0, 256);
    let c = random_in(0, 256);
    let d = random_in(1, 255);
    let mut r = u64_text(a as u64);
    r.append(".");
    r.append(u64_text(b as u64).as_str());
    r.append(".");
    r.append(u64_text(c as u64).as_str());
    r.append(".");
    r.append(u64_text(d as u64).as_str());
    assert(r@ == ip_text(a as nat, b as nat, c as nat, d as nat));
    r
}

/// Number of discussions asked for per page.
pub const PAN666_PAGE_SIZE: u32 = 50;

/// The address of page `page` (from 0) of the search for `kw`.
pub open spec fn pan666_url(kw: Seq<char>, page: u32) -> Seq<char> {
    "https://pan666.net/api/discussions?filter[q]="@ + spec_form_urlencode(kw)
        + "&include=mostRelevantPost&page[offset]="@ + digits_in_base((page * 50) as nat, 10)
        + "&page[limit]=50"@
}

// ---------------------------------------------------------------------
// Answers
// ---------------------------------------------------------------------

/// A discussion of the answer, with the id of its most relevant post.
pub struct Pan666Discussion {
    pub id: String,
    pub title: String,
    pub created_at: String,
    pub post_id: String,
}

/// A post included in the answer.
pub struct Pan666Post {
    pub id: String,
    pub content_html: String,
}

/// Mathematical view of a [`Pan666Discussion`].
pub struct Pan666DiscussionView {
    pub id: Seq<char>,
    pub title: Seq<char>,
    pub created_at: Seq<char>,
    pub post_id: Seq<char>,
}

/// Mathematical view of a [`Pan666Post`].
pub struct Pan666PostView {
    pub id: Seq<char>,
    pub content_html: Seq<char>,
}

impl View for Pan666Discussion {
    type V = Pan666DiscussionView;

    open spec fn view(&self) -> Pan666DiscussionView {
        Pan666DiscussionView {
            id: self.id@,
            title: self.title@,
            created_at: self.created_at@,
            post_id: self.post_id@,
        }
    }
}

impl View for Pan666Post {
    type V = Pan666PostView;

    open spec fn view(&self) -> Pan666PostView {
        Pan666PostView { id: self.id@, content_html: self.content_html@ }
    }
}

/// One page of the answer: discussions and posts.
pub type Pan666Page = (Vec<Pan666Discussion>, Vec<Pan666Post>);

/// View of a page.
pub open spec fn page_view(p: Pan666Page) -> (Seq<Pan666DiscussionView>, Seq<Pan666PostView>) {
    (p.0@.map_values(|d: Pan666Discussion| d@), p.1@.map_values(|q: Pan666Post| q@))
}

/// The HTML of the post with id `id`; of the last one when several have it.
pub open spec fn post_for(posts: Seq<Pan666PostView>, id: Seq<char>) -> Option<Seq<char>>
    decreases posts.len(),
{
    if posts.len() == 0 {
        None
    } else if posts.last().id == id {
        Some(posts.last().content_html)
    } else {
        post_for(posts.drop_last(), id)
    }
}

/// The result of a discussion whose post has the text `cleaned` and the
/// links `links`.
pub open spec fn discussion_result(
    d: Pan666DiscussionView,
    cleaned: Seq<char>,
    links: Seq<LinkView>,
    now: i64,
) -> SearchResultView {
    let id = "pan666-"@ + d.id;
    SearchResultView {
        message_id: id,
        unique_id: id,
        channel: Seq::empty(),
        channel_score: DEFAULT_CHANNEL_SCORE,
        datetime: match spec_rfc3339_ms(d.created_at) {
            Some(ms) => ms,
            None => now,
        },
        title: d.title,
        content: cleaned,
        links: links,
        tags: Seq::empty(),
        images: Seq::empty(),
    }
}

/// The results of a page's discussions, appended to `acc`: a discussion
/// counts when its post is included and the post's text has links. `None`
/// when a post's text does not read safely (see [`text_reads_safely`]):
/// the search then fails.
pub open spec fn discussions_results(
    discs: Seq<Pan666DiscussionView>,
    posts: Seq<Pan666PostView>,
    now: i64,
) -> Option<Seq<SearchResultView>>
    decreases discs.len(),
{
    if discs.len() == 0 {
        Some(Seq::empty())
    } else {
        match discussions_results(discs.drop_last(), posts, now) {
            None => None,
            Some(prev) => {
                let d = discs.last();
                match post_for(posts, d.post_id) {
                    None => Some(prev),
                    Some(html) => {
                        let cleaned = clean_html_of(html);
                        if !text_reads_safely(cleaned) {
                            None
                        } else if text_links(cleaned).len() == 0 {
                            Some(prev)
                        } else {
                            Some(prev.push(discussion_result(d, cleaned, text_links(cleaned), now)))
                        }
                    },
                }
            },
        }
    }
}

/// The results of all pages in order, or `None` when one page fails.
pub open spec fn pages_results(
    pages: Seq<(Seq<Pan666DiscussionView>, Seq<Pan666PostView>)>,
    now: i64,
) -> Option<Seq<SearchResultView>>
    decreases pages.len(),
{
    if pages.len() == 0 {
        Some(Seq::empty())
    } else {
        match (pages_results(pages.drop_last(), now), discussions_results(pages.last().0, pages.last().1, now)) {
            (Some(a), Some(b)) => Some(a + b),
            _ => None,
        }
    }
}

/// The search's results for `kw`: none when a page fails; otherwise the
/// pages' results that match the keyword.
pub open spec fn pan666_results(
    pages: Seq<(Seq<Pan666DiscussionView>, Seq<Pan666PostView>)>,
    kw: Seq<char>,
    now: i64,
) -> Seq<SearchResultView> {
    match pages_results(pages, now) {
        Some(rs) => keyword_filtered(rs, kw),
        None => Seq::empty(),
    }
}

proof fn lemma_discussions_fail_extends(
    discs: Seq<Pan666DiscussionView>,
    posts: Seq<Pan666PostView>,
    now: i64,
    k: int,
)
    requires
        0 <= k <= discs.len(),
        discussions_results(discs.take(k), posts, now) is None,
    ensures
        discussions_results(discs, posts, now) is None,
    decreases discs.len(),
{
    if discs.len() == k {
        assert(discs.take(k) =~= discs);
    } else {
        assert(discs.drop_last().take(k) =~= discs.take(k));
        lemma_discussions_fail_extends(discs.drop_last(), posts, now, k);
    }
}

proof fn lemma_pages_fail_extends(
    pages: Seq<(Seq<Pan666DiscussionView>, Seq<Pan666PostView>)>,
    now: i64,
    k: int,
)
    requires
        0 <= k <= pages.len(),
        pages_results(pages.take(k), now) is None,
    ensures
        pages_results(pages, now) is None,
    decreases pages.len(),
{
    if pages.len() == k {
        assert(pages.take(k) =~= pages);
    } else {
        assert(pages.drop_last().take(k) =~= pages.take(k));
        lemma_pages_fail_extends(pages.drop_last(), now, k);
    }
}

fn find_post<'a>(posts: &'a Vec<Pan666Post>, id: &str) -> (r: Option<&'a String>)
    ensures
        match r {
            Some(h) => post_for(posts@.map_values(|q: Pan666Post| q@), id@) == Some(h@),
            None => post_for(posts@.map_values(|q: Pan666Post| q@), id@) is None,
        },
{
    let ghost pv = posts@.map_values(|q: Pan666Post| q@);
    let mut i: usize = posts.len();
    assert(pv.take(i as int) =~= pv);
    while i > 0
        invariant
            i <= posts@.len(),
            pv == posts@.map_values(|q: Pan666Post| q@),
            post_for(pv, id@) == post_for(pv.take(i as int), id@),
        decreases i,
    {
        proof {
            assert(pv.take(i as int).drop_last() =~= pv.take(i - 1));
            assert(pv.take(i as int).last() == posts@[i - 1]@);
        }
        if crate::text::str_eq(posts[i - 1].id.as_str(), id) {
            return Some(&posts[i - 1].content_html);
        }
        i = i - 1;
    }
    None
}

fn page_results(discs: &Vec<Pan666Discussion>, posts: &Vec<Pan666Post>, now: i64, out: &mut Vec<SearchResult>) -> (ok: bool)
    ensures
        ok ==> discussions_results(
            discs@.map_values(|d: Pan666Discussion| d@),
            posts@.map_values(|q: Pan666Post| q@),
            now,
        ) == Some(results_view(final(out)@).skip(old(out)@.len() as int)),
        ok ==> final(out)@.len() >= old(out)@.len(),
        ok ==> results_view(final(out)@).take(old(out)@.len() as int) == results_view(old(out)@),
        !ok ==> discussions_results(
            discs@.map_values(|d: Pan666Discussion| d@),
            posts@.map_values(|q: Pan666Post| q@),
            now,
        ) is None,
{
    let ghost dv = discs@.map_values(|d: Pan666Discussion| d@);
    let ghost pv = posts@.map_values(|q: Pan666Post| q@);
    let ghost start = old(out)@.len() as int;
    let ghost base = results_view(old(out)@);
    let mut i: usize = 0;
    while i < discs.len()
        invariant
            i <= discs@.len(),
            dv == discs@.map_values(|d: Pan666Discussion| d@),
            pv == posts@.map_values(|q: Pan666Post| q@),
            0 <= start <= out@.len(),
            results_view(out@).take(start) == base,
            discussions_results(dv.take(i as int), pv, now) == Some(results_view(out@).skip(start)),
        decreases discs@.len() - i,
    {
        proof {
            assert(dv.take(i + 1).drop_last() =~= dv.take(i as int));
            assert(dv.take(i + 1).last() == discs@[i as int]@);
        }
        let d = &discs[i];
        match find_post(posts, d.post_id.as_str()) {
            None => {},
            Some(html) => {
                let cleaned = clean_html(html.as_str());
                if !reads_safely(cleaned.as_str()) {
                    proof {
                        lemma_discussions_fail_extends(dv, pv, now, i + 1);
                    }
                    return false;
                }
                let links = extract_links_from_text(cleaned.as_str());
                if links.len() > 0 {
                    let dt: i64 = match parse_rfc3339_ms(d.created_at.as_str()) {
                        Some(ms) => ms,
                        None => now,
                    };
                    let id = concat2("pan666-", d.id.as_str());
                    let r = SearchResult {
                        message_id: id.clone(),
                        unique_id: id,
                        channel: String::new(),
                        channel_score: DEFAULT_CHANNEL_SCORE,
                        datetime: dt,
                        title: d.title.clone(),
                        content: cleaned,
                        links,
                        tags: Vec::new(),
                        images: Vec::new(),
                    };
                    let ghost before = results_view(out@);
                    proof {
                        assert(r@.tags =~= Seq::<Seq<char>>::empty());
                        assert(r@.images =~= Seq::<Seq<char>>::empty());
                    }
                    out.push(r);
                    proof {
                        let after = results_view(out@);
                        assert(after =~= before.push(r@));
                        assert(before.len() >= start);
                        assert(after.skip(start) =~= before.skip(start).push(r@));
                        assert(after.take(start) =~= before.take(start));
                    }
                }
            },
        }
        i = i + 1;
    }
    assert(dv.take(dv.len() as int) =~= dv);
    true
}

impl Pan666Plugin {
    /// The plugin's name.
    pub fn name(&self) -> (r: &'static str)
        ensures
            r@ == "pan666"@,
    {
        "pan666"
    }

    /// The plugin's priority.
    pub fn priority(&self) -> (r: i32)
        ensures
            r == DEFAULT_PRIORITY,
    {
        DEFAULT_PRIORITY
    }

    /// Reliability score of the plugin's results.
    pub fn channel_score(&self) -> (r: i32)
        ensures
            r == DEFAULT_CHANNEL_SCORE,
    {
        DEFAULT_CHANNEL_SCORE
    }

    /// The address of page `page` (from 0) of the search for a keyword.
    pub fn page_url(&self, keyword: &str, page: u32) -> (r: String)
        requires
            page * 50 <= u32::MAX,
        ensures
            r@ == pan666_url(keyword@, page),
    {
        let mut r = String::from_str("https://pan666.net/api/discussions?filter[q]=");
        r.append(form_urlencode(keyword).as_str());
        r.append("&include=mostRelevantPost&page[offset]=");
        r.append(u64_text((page * PAN666_PAGE_SIZE) as u64).as_str());
        r.append("&page[limit]=50");
        r
    }

    /// The search results of the pages answered for `keyword`, at time
    /// `now` (see [`pan666_results`]).
    pub fn results_from_pages(&self, pages: &Vec<Pan666Page>, keyword: &str, now: i64) -> (r: Vec<
        SearchResult,
    >)
        ensures
            results_view(r@) == pan666_results(
                pages@.map_values(|p: Pan666Page| page_view(p)),
                keyword@,
                now,
            ),
    {
        let ghost gv = pages@.map_values(|p: Pan666Page| page_view(p));
        let mut out: Vec<SearchResult> = Vec::new();
        let mut i: usize = 0;
        while i < pages.len()
            invariant
                i <= pages@.len(),
                gv == pages@.map_values(|p: Pan666Page| page_view(p)),
                pages_results(gv.take(i as int), now) == Some(results_view(out@)),
            decreases pages@.len() - i,
        {
            proof {
                assert(gv.take(i + 1).drop_last() =~= gv.take(i as int));
                assert(gv.take(i + 1).last() == page_view(pages@[i as int]));
            }
            let ghost before = results_view(out@);
            let ok = page_results(&pages[i].0, &pages[i].1, now, &mut out);
            if !ok {
                proof {
                    lemma_pages_fail_extends(gv, now, i + 1);
                }
                let empty: Vec<SearchResult> = Vec::new();
                assert(results_view(empty@) =~= Seq::<SearchResultView>::empty());
                return empty;
            }
            proof {
                let after = results_view(out@);
                assert(after =~= after.take(before.len() as int) + after.skip(before.len() as int));
            }
            i = i + 1;
        }
        assert(gv.take(gv.len() as int) =~= gv);
        filter_results_by_keyword(&mut out, keyword);
        out
    }
}

} // verus!
