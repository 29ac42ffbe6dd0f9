//! What is read from the system: the distro from `/etc/os-release`, and
//! command output without terminal escape sequences.
use vstd::prelude::*;
use vstd::string::StringSliceAdditionalSpecFns;
use vstd::utf8::{decode_utf8, valid_utf8};
use crate::manager::Distro;
use crate::strmap::StrMap;
use crate::text::{chars_of, is_white, is_whitespace, split_lines, string_of, text_lines, trim_chars, trimmed};

verus! {

// ---------------------------------------------------------------------------
// Escape sequences.
// ---------------------------------------------------------------------------

/// The bytes that `strip_ansi_escapes::strip` leaves of its input.
pub uninterp spec fn ansi_stripped(bytes: Seq<u8>) -> Seq<u8>;

/// `strip_ansi_escapes::strip`: its result is named; it is valid UTF-8, as
/// the crate writes every character it keeps through `char` formatting.
#[verifier::external_body]
fn strip_escapes(data: &[u8]) -> (r: Vec<u8>)
    ensures
        r@ == ansi_stripped(data@),
        valid_utf8(r@),
{
    strip_ansi_escapes::strip(data)
}

/// `String::from_utf8_lossy`: the decoded text of valid UTF-8.
#[verifier::external_body]
fn from_utf8_lossy(bytes: &[u8]) -> (r: String)
    requires
        valid_utf8(bytes@),
    ensures
        r@ == decode_utf8(bytes@),
{
    String::from_utf8_lossy(bytes).into_owned()
}

/// The text without its ANSI escape sequences.
pub fn strip_ansi(s: &str) -> (r: String)
    ensures
        r@ == decode_utf8(ansi_stripped(s.spec_bytes())),
{
    let stripped = strip_escapes(s.as_bytes());
    from_utf8_lossy(stripped.as_slice())
}

// ---------------------------------------------------------------------------
// os-release.
// ---------------------------------------------------------------------------

/// The text without `"` at its start.
pub open spec fn drop_lead_quotes(s: Seq<char>) -> Seq<char>
    decreases s.len(),
{
    if s.len() > 0 && s[0] == '"' {
        drop_lead_quotes(s.drop_first())
    } else {
        s
    }
}

/// The text without `"` at its end.
pub open spec fn drop_trail_quotes(s: Seq<char>) -> Seq<char>
    decreases s.len(),
{
    if s.len() > 0 && s.last() == '"' {
        drop_trail_quotes(s.drop_last())
    } else {
        s
    }
}

/// The text without `"` at either end, as `trim_matches('"')` gives it.
pub open spec fn unquoted(s: Seq<char>) -> Seq<char> {
    drop_trail_quotes(drop_lead_quotes(s))
}

/// The key and value of an os-release line: none for a blank line, a
/// comment or a line without `=`; else the text before the first `=`, and
/// the text after it without quotes.
pub open spec fn os_release_entry(line: Seq<char>) -> Option<(Seq<char>, Seq<char>)> {
    let t = trimmed(line);
    if t.len() == 0 || t[0] == '#' {
        None
    } else if exists|e: int| 0 <= e < t.len() && t[e] == '=' {
        let e = choose|e: int| 0 <= e < t.len() && t[e] == '=' && forall|u: int| 0 <= u < e ==> t[u] != '=';
        Some((t.take(e), unquoted(t.skip(e + 1))))
    } else {
        None
    }
}

/// The fields of os-release lines; a later line for a key wins.
pub open spec fn os_release_fields(lines: Seq<Seq<char>>) -> Map<Seq<char>, Seq<char>>
    decreases lines.len(),
{
    if lines.len() == 0 {
        Map::empty()
    } else {
        let m = os_release_fields(lines.drop_last());
        match os_release_entry(lines.last()) {
            Some((k, v)) => m.insert(k, v),
            None => m,
        }
    }
}

/// The characters of `v[from..to]` without `"` at either end.
fn unquote_range(v: &Vec<char>, from: usize) -> (r: String)
    requires
        from <= v.len(),
    ensures
        r@ == unquoted(v@.skip(from as int)),
{
    let mut a = from;
    assert(v@.skip(from as int) =~= v@.subrange(from as int, v@.len() as int));
    while a < v.len() && v[a] == '"'
        invariant
            from <= a <= v@.len(),
            drop_lead_quotes(v@.skip(from as int)) == drop_lead_quotes(v@.subrange(a as int, v@.len() as int)),
        decreases v.len() - a,
    {
        assert(v@.subrange(a as int, v@.len() as int).drop_first() =~= v@.subrange(a + 1, v@.len() as int));
        a = a + 1;
    }
    let ghost lead = v@.subrange(a as int, v@.len() as int);
    assert(drop_lead_quotes(lead) == lead);
    let mut b = v.len();
    while b > a && v[b - 1] == '"'
        invariant
            a <= b <= v@.len(),
            drop_trail_quotes(lead) == drop_trail_quotes(v@.subrange(a as int, b as int)),
        decreases b,
    {
        assert(v@.subrange(a as int, b as int).drop_last() =~= v@.subrange(a as int, b - 1));
        b = b - 1;
    }
    assert(drop_trail_quotes(v@.subrange(a as int, b as int)) == v@.subrange(a as int, b as int));
    string_of(v, a, b)
}

/// The key and value of one os-release line.
fn os_release_line(line: &Vec<char>) -> (r: Option<(String, String)>)
    ensures
        match r {
            Some((k, v)) => os_release_entry(line@) == Some((k@, v@)),
            None => os_release_entry(line@) is None,
        },
{
    let t = trim_chars(line);
    if t.len() == 0 || t[0] == '#' {
        return None;
    }
    let mut e: usize = 0;
    while e < t.len() && t[e] != '='
        invariant
            e <= t@.len(),
            forall|u: int| 0 <= u < e ==> t@[u] != '=',
        decreases t.len() - e,
    {
        e = e + 1;
    }
    if e == t.len() {
        return None;
    }
    let ghost c = choose|c: int| 0 <= c < t@.len() && t@[c] == '=' && forall|u: int| 0 <= u < c ==> t@[u] != '=';
    assert(c == e as int) by {
        if c < e {
        } else if c > e {
        }
    }
    let key = string_of(&t, 0, e);
    assert(t@.subrange(0, e as int) =~= t@.take(e as int));
    let value = unquote_range(&t, e + 1);
    Some((key, value))
}

/// The fields of an os-release file.
pub fn parse_os_release(content: &str) -> (fields: StrMap<String>)
    ensures
        fields@ == os_release_fields(text_lines(content@)),
{
    let cs = chars_of(content);
    let lines = split_lines(&cs);
    let ghost lv = lines.deep_view();
    let mut fields: StrMap<String> = StrMap::new();
    let mut i: usize = 0;
    while i < lines.len()
        invariant
            i <= lines@.len(),
            lv == lines.deep_view(),
            fields@ == os_release_fields(lv.take(i as int)),
        decreases lines.len() - i,
    {
        assert(lv.take(i + 1).drop_last() =~= lv.take(i as int));
        assert(lines@[i as int]@ =~= lv[i as int]);
        match os_release_line(&lines[i]) {
            Some((k, v)) => {
                fields.insert(k, v);
            },
            None => {},
        }
        i = i + 1;
    }
    assert(lv.take(i as int) =~= lv);
    fields
}

/// The words of a text: its maximal runs of characters that are not white space.
pub open spec fn word_tail(s: Seq<char>) -> Seq<char>
    decreases s.len(),
{
    if s.len() == 0 {
        Seq::empty()
    } else if is_white(s.last()) {
        Seq::empty()
    } else {
        word_tail(s.drop_last()).push(s.last())
    }
}

/// The words that white space ends.
pub open spec fn ended_words(s: Seq<char>) -> Seq<Seq<char>>
    decreases s.len(),
{
    if s.len() == 0 {
        Seq::empty()
    } else if is_white(s.last()) && word_tail(s.drop_last()).len() > 0 {
        ended_words(s.drop_last()).push(word_tail(s.drop_last()))
    } else {
        ended_words(s.drop_last())
    }
}

/// The words of a text, as `str::split_whitespace` gives them.
pub open spec fn words(s: Seq<char>) -> Seq<Seq<char>> {
    if word_tail(s).len() > 0 {
        ended_words(s).push(word_tail(s))
    } else {
        ended_words(s)
    }
}

/// The words of a text.
fn split_words(s: &Vec<char>) -> (r: Vec<Vec<char>>)
    ensures
        r.deep_view() == words(s@),
{
    let mut done: Vec<Vec<char>> = Vec::new();
    let mut cur: Vec<char> = Vec::new();
    let mut i: usize = 0;
    while i < s.len()
        invariant
            i <= s@.len(),
            done.deep_view() == ended_words(s@.take(i as int)),
            cur@ == word_tail(s@.take(i as int)),
        decreases s.len() - i,
    {
        let c = s[i];
        assert(s@.take(i + 1).drop_last() =~= s@.take(i as int));
        assert(s@.take(i + 1).last() == c);
        if is_whitespace(c) {
            if cur.len() > 0 {
                assert(cur.deep_view() =~= cur@);
                crate::strmap::push_deep(&mut done, cur);
            }
            cur = Vec::new();
            assert(cur@ =~= word_tail(s@.take(i + 1)));
        } else {
            cur.push(c);
        }
        i = i + 1;
    }
    assert(s@.take(i as int) =~= s@);
    if cur.len() > 0 {
        assert(cur.deep_view() =~= cur@);
        crate::strmap::push_deep(&mut done, cur);
    }
    assert(done.deep_view() =~= words(s@));
    done
}

/// Whether the words of a text include one of two words.
fn has_either_word(text: &str, a: &str, b: &str) -> (r: bool)
    ensures
        r == (words(text@).contains(a@) || words(text@).contains(b@)),
{
    let ws = split_words(&chars_of(text));
    assert(ws.deep_view() == words(text@));
    let av = chars_of(a);
    let bv = chars_of(b);
    let mut i: usize = 0;
    while i < ws.len()
        invariant
            i <= ws@.len(),
            av@ == a@,
            bv@ == b@,
            ws.deep_view() == words(text@),
            forall|k: int| 0 <= k < i ==> ws.deep_view()[k] != a@ && ws.deep_view()[k] != b@,
        decreases ws.len() - i,
    {
        assert(ws.deep_view()[i as int] =~= ws@[i as int]@);
        if chars_equal(&ws[i], &av) || chars_equal(&ws[i], &bv) {
            assert(words(text@)[i as int] == a@ || words(text@)[i as int] == b@);
            return true;
        }
        i = i + 1;
    }
    false
}

/// Whether two character vectors hold the same characters.
fn chars_equal(x: &Vec<char>, y: &Vec<char>) -> (r: bool)
    ensures
        r == (x@ == y@),
{
    if x.len() != y.len() {
        return false;
    }
    let mut i: usize = 0;
    while i < x.len()
        invariant
            i <= x@.len(),
            x@.len() == y@.len(),
            forall|k: int| 0 <= k < i ==> x@[k] == y@[k],
        decreases x.len() - i,
    {
        if x[i] != y[i] {
            return false;
        }
        i = i + 1;
    }
    assert(x@ =~= y@);
    true
}

/// The value of a field, or the empty text.
pub open spec fn field_or_empty(m: Map<Seq<char>, Seq<char>>, k: Seq<char>) -> Seq<char> {
    if m.dom().contains(k) {
        m[k]
    } else {
        Seq::empty()
    }
}

/// The distro that an os-release file describes: Ubuntu for `ubuntu` or
/// `debian` among the words of `ID` or `ID_LIKE`, then Fedora for `fedora`
/// or `rhel`, else unknown.
pub open spec fn os_release_distro(content: Seq<char>) -> Distro {
    let f = os_release_fields(text_lines(content));
    let id = field_or_empty(f, "ID"@);
    let like = field_or_empty(f, "ID_LIKE"@);
    let ubuntu = |s: Seq<char>| words(s).contains("ubuntu"@) || words(s).contains("debian"@);
    let fedora = |s: Seq<char>| words(s).contains("fedora"@) || words(s).contains("rhel"@);
    if ubuntu(id) || ubuntu(like) {
        Distro::Ubuntu
    } else if fedora(id) || fedora(like) {
        Distro::Fedora
    } else {
        Distro::Unknown
    }
}

/// The value of a field, or the empty text.
fn field(fields: &StrMap<String>, key: &str) -> (r: String)
    ensures
        r@ == field_or_empty(fields@, key@),
{
    match fields.get(key) {
        Some(v) => v.clone(),
        None => String::new(),
    }
}

/// The distro that the content of `/etc/os-release` describes.
pub fn distro_from_os_release(content: &str) -> (d: Distro)
    ensures
        d == os_release_distro(content@),
{
    let fields = parse_os_release(content);
    let id = field(&fields, "ID");
    let like = field(&fields, "ID_LIKE");
    if has_either_word(id.as_str(), "ubuntu", "debian") || has_either_word(like.as_str(), "ubuntu", "debian") {
        return Distro::Ubuntu;
    }
    if has_either_word(id.as_str(), "fedora", "rhel") || has_either_word(like.as_str(), "fedora", "rhel") {
        return Distro::Fedora;
    }
    Distro::Unknown
}


/// The distro an os-release file describes, by the words of its `ID` and
/// `ID_LIKE` fields: `ubuntu` or `debian` in either gives Ubuntu, whatever the
/// other says; otherwise `fedora` or `rhel` in either gives Fedora; otherwise
/// the distro is unknown.
pub proof fn lemma_distro_by_id_words(content: Seq<char>)
    ensures
        ({
            let f = os_release_fields(text_lines(content));
            let id = words(field_or_empty(f, "ID"@));
            let like = words(field_or_empty(f, "ID_LIKE"@));
            let deb = id.contains("ubuntu"@) || id.contains("debian"@) || like.contains("ubuntu"@) || like.contains(
                "debian"@,
            );
            let rh = id.contains("fedora"@) || id.contains("rhel"@) || like.contains("fedora"@) || like.contains(
                "rhel"@,
            );
            &&& (id.contains("ubuntu"@) || id.contains("debian"@)) ==> os_release_distro(content) == Distro::Ubuntu
            &&& (like.contains("ubuntu"@) || like.contains("debian"@)) ==> os_release_distro(content)
                == Distro::Ubuntu
            &&& !deb && rh ==> os_release_distro(content) == Distro::Fedora
            &&& !deb && !rh ==> os_release_distro(content) == Distro::Unknown
        }),
{
}

} // verus!
