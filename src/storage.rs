//! The text of the translation files that hold long documentation texts
//! paragraph by paragraph.
use vstd::prelude::*;

use crate::text::{chars_of, contains_seq, contains_str, debug_quote, debug_str, push_char};
use crate::translations::TranslationMap;

verus! {

/// A lowercase hexadecimal digit.
pub open spec fn hex_digit(d: nat) -> char {
    if d < 10 {
        crate::text::digit_char(d)
    } else if d == 10 {
        'a'
    } else if d == 11 {
        'b'
    } else if d == 12 {
        'c'
    } else if d == 13 {
        'd'
    } else if d == 14 {
        'e'
    } else {
        'f'
    }
}

/// How a character stands in a JSON string: quote, backslash and the control
/// characters below U+0020 are escaped, the common ones by a letter and the
/// others as `\u00XX`; every other character stands for itself.
pub open spec fn json_char(c: char) -> Seq<char> {
    let u = c as u32;
    if c == '"' {
        seq!['\\', '"']
    } else if c == '\\' {
        seq!['\\', '\\']
    } else if u == 0x08 {
        seq!['\\', 'b']
    } else if u == 0x09 {
        seq!['\\', 't']
    } else if u == 0x0a {
        seq!['\\', 'n']
    } else if u == 0x0c {
        seq!['\\', 'f']
    } else if u == 0x0d {
        seq!['\\', 'r']
    } else if u < 0x20 {
        seq!['\\', 'u', '0', '0', hex_digit((u / 16) as nat), hex_digit((u % 16) as nat)]
    } else {
        seq![c]
    }
}

/// The escaped characters of a JSON string.
pub open spec fn json_contents(s: Seq<char>) -> Seq<char>
    decreases s.len(),
{
    if s.len() == 0 {
        seq![]
    } else {
        json_contents(s.drop_last()) + json_char(s.last())
    }
}

/// A text as a JSON string literal.
pub open spec fn json_str(s: Seq<char>) -> Seq<char> {
    seq!['"'] + json_contents(s) + seq!['"']
}

/// Relies on `serde_json::to_string` for a `str`, which cannot fail: the
/// text between double quotes, with `"`, `\` and the control characters
/// escaped as its string formatter does.
#[verifier::external_body]
fn json_quote(s: &str) -> (r: String)
    ensures
        r@ == json_str(s@),
{
    serde_json::to_string(s).unwrap_or_default()
}

/// The state after unescaping `s`: the output so far, and whether a
/// backslash is waiting for the character it escapes.
pub open spec fn unescape_state(s: Seq<char>) -> (Seq<char>, bool)
    decreases s.len(),
{
    if s.len() == 0 {
        (seq![], false)
    } else {
        let (out, escaped) = unescape_state(s.drop_last());
        let c = s.last();
        if escaped {
            if c == 'n' {
                (out.push('\n'), false)
            } else if c == '"' {
                (out.push('"'), false)
            } else {
                (out.push('\\').push(c), false)
            }
        } else if c == '\\' {
            (out, true)
        } else {
            (out.push(c), false)
        }
    }
}

/// `s` with `\n` and `\"` turned back into a line feed and a quote; other
/// escapes are kept, and a backslash at the very end is dropped.
pub open spec fn unescaped(s: Seq<char>) -> Seq<char> {
    unescape_state(s).0
}

/// Unescapes a string by removing toml-safe escape characters.
pub fn unescape(s: String) -> (r: String)
    ensures
        r@ == unescaped(s@),
{
    let mut is_escaped = false;
    let mut output = String::new();
    for ch in it: s.as_str().chars()
        invariant
            it.seq() == s@,
            (output@, is_escaped) == unescape_state(s@.take(it.index() as int)),
    {
        assert(ch == s@[it.index() as int]);
        assert(s@.take(it.index() + 1).drop_last() == s@.take(it.index() as int));
        if is_escaped {
            if ch == 'n' {
                push_char(&mut output, '\n');
            } else if ch == '"' {
                push_char(&mut output, '"');
            } else {
                push_char(&mut output, '\\');
                push_char(&mut output, ch);
            }
            is_escaped = false;
        } else if ch == '\\' {
            is_escaped = true;
        } else {
            push_char(&mut output, ch);
        }
    }
    assert(s@.take(s@.len() as int) == s@);
    output
}

/// The number of blank-line separators (two line feeds in a row) in `s`
/// from position `j` to `end`, matched from the left without overlapping.
pub open spec fn separators_from(s: Seq<char>, j: int, end: int) -> nat
    decreases end - j,
{
    if j + 1 < end {
        if s[j] == '\n' && s[j + 1] == '\n' {
            1 + separators_from(s, j + 2, end)
        } else {
            separators_from(s, j + 1, end)
        }
    } else {
        0
    }
}

/// Whether a text has at least five blank-line separators, and so is kept in
/// a file of its own, paragraph by paragraph.
pub fn is_large_translation(text: &str) -> (r: bool)
    ensures
        r == (separators_from(text@, 0, text@.len() as int) >= 5),
{
    let ghost s = text@;
    let chars = chars_of(text);
    let end = chars.len();
    let mut count: usize = 0;
    let mut j: usize = 0;
    while end - j >= 2 && count < 5
        invariant
            chars@ == s,
            j <= end == s.len(),
            count <= 5,
            separators_from(s, 0, end as int) == count + separators_from(s, j as int, end as int),
        decreases end - j,
    {
        if chars[j] == '\n' && chars[j + 1] == '\n' {
            count += 1;
            j += 2;
        } else {
            j += 1;
        }
    }
    count >= 5
}

/// A paragraph as a TOML string, given its JSON form: a multi-line literal
/// made from the JSON form, or the JSON form itself when the paragraph holds
/// three quotes in a row.
pub open spec fn toml_form(par: Seq<char>, json: Seq<char>) -> Seq<char> {
    if contains_seq(par, "\"\"\""@) {
        json
    } else {
        "\"\""@ + unescaped(json) + "\"\""@
    }
}

/// A paragraph as a TOML string.
pub open spec fn toml_text(par: Seq<char>) -> Seq<char> {
    toml_form(par, json_str(par))
}

/// The entry of one paragraph in a new file.
pub open spec fn new_entry(par: Seq<char>) -> Seq<char> {
    "\n[[main]]\nen = "@ + toml_text(par) + "\n"@
}

/// The text of a new file for the given paragraphs.
pub open spec fn new_file_text(pars: Seq<Seq<char>>) -> Seq<char>
    decreases pars.len(),
{
    if pars.len() == 0 {
        seq![]
    } else {
        new_file_text(pars.drop_last()) + new_entry(pars.last())
    }
}

/// Writes a paragraph as a TOML string, given its JSON form.
pub fn push_toml_form(out: &mut String, par: &str, json: String)
    ensures
        final(out)@ == old(out)@ + toml_form(par@, json@),
{
    let ghost start = out@;
    if contains_str(par, "\"\"\"") {
        out.append(json.as_str());
    } else {
        let content = unescape(json);
        out.append("\"\"");
        out.append(content.as_str());
        out.append("\"\"");
        assert(out@ =~= start + toml_form(par@, json@));
    }
}

/// Writes a paragraph as a TOML string.
fn push_toml_text(out: &mut String, par: &str)
    ensures
        final(out)@ == old(out)@ + toml_text(par@),
{
    push_toml_form(out, par, json_quote(par));
}

/// The text of a new translation file that holds the given paragraphs, in
/// English.
pub fn large_translation_text(pars: &Vec<&str>) -> (r: String)
    ensures
        r@ == new_file_text(crate::split::views(pars@)),
{
    let ghost ps = crate::split::views(pars@);
    let mut out = String::new();
    let mut i: usize = 0;
    assert(ps.take(0) =~= Seq::<Seq<char>>::empty());
    while i < pars.len()
        invariant
            ps == crate::split::views(pars@),
            i <= pars@.len(),
            out@ == new_file_text(ps.take(i as int)),
        decreases pars.len() - i,
    {
        let ghost before = out@;
        out.append("\n[[main]]\nen = ");
        push_toml_text(&mut out, pars[i]);
        out.append("\n");
        assert(ps.take(i + 1).drop_last() =~= ps.take(i as int));
        assert(ps.take(i + 1).last() == pars@[i as int]@);
        assert(out@ =~= before + new_entry(pars@[i as int]@));
        i += 1;
    }
    assert(ps.take(ps.len() as int) =~= ps);
    out
}

/// The line of one language of a stored paragraph, given the text, its JSON
/// form, and the quoted JSON form.
pub open spec fn stored_line_form(
    lang: Seq<char>,
    content: Seq<char>,
    json: Seq<char>,
    quoted: Seq<char>,
) -> Seq<char> {
    if contains_seq(content, "\"\"\""@) {
        lang + " = "@ + quoted + "\n"@
    } else {
        lang + " = \"\""@ + unescaped(json) + "\"\"\n"@
    }
}

/// The line of one language of a stored paragraph, if it has a text in that
/// language.
pub open spec fn stored_line(par: Map<Seq<char>, Seq<char>>, lang: Seq<char>) -> Seq<char> {
    if !par.contains_key(lang) {
        seq![]
    } else {
        stored_line_form(lang, par[lang], json_str(par[lang]), debug_str(json_str(par[lang])))
    }
}

/// The entry of one stored paragraph: its English and Chinese texts.
pub open spec fn stored_entry(par: Map<Seq<char>, Seq<char>>) -> Seq<char> {
    "\n[[main]]\n"@ + stored_line(par, "en"@) + stored_line(par, "zh"@)
}

/// The text of a translation file for the given paragraphs.
pub open spec fn stored_file_text(pars: Seq<TranslationMap>) -> Seq<char>
    decreases pars.len(),
{
    if pars.len() == 0 {
        seq![]
    } else {
        stored_file_text(pars.drop_last()) + stored_entry(pars.last()@)
    }
}

/// Writes the line of one language of a stored paragraph, given the text,
/// its JSON form, and the quoted JSON form.
pub fn push_stored_line(out: &mut String, lang: &str, content: &str, json: String, quoted: &str)
    ensures
        final(out)@ == old(out)@ + stored_line_form(lang@, content@, json@, quoted@),
{
    let ghost start = out@;
    if contains_str(content, "\"\"\"") {
        out.append(lang);
        out.append(" = ");
        out.append(quoted);
        out.append("\n");
    } else {
        let json = unescape(json);
        out.append(lang);
        out.append(" = \"\"");
        out.append(json.as_str());
        out.append("\"\"\n");
    }
    assert(out@ =~= start + stored_line_form(lang@, content@, json@, quoted@));
}

/// Writes the line of one language of a stored paragraph.
fn store_one(out: &mut String, par: &TranslationMap, lang: &str)
    ensures
        final(out)@ == old(out)@ + stored_line(par@, lang@),
{
    match par.get(lang) {
        None => {
            assert(old(out)@ + stored_line(par@, lang@) =~= old(out)@);
        },
        Some(content) => {
            let json = json_quote(content.as_str());
            let quoted = debug_quote(json.as_str());
            push_stored_line(out, lang, content.as_str(), json, quoted.as_str());
        },
    }
}

/// The text of a translation file that holds the given paragraphs, with
/// their English and Chinese texts.
pub fn large_translation_file_text(pars: &Vec<TranslationMap>) -> (r: String)
    ensures
        r@ == stored_file_text(pars@),
{
    let mut out = String::new();
    let mut i: usize = 0;
    assert(pars@.take(0) =~= Seq::<TranslationMap>::empty());
    while i < pars.len()
        invariant
            i <= pars@.len(),
            out@ == stored_file_text(pars@.take(i as int)),
        decreases pars.len() - i,
    {
        let ghost before = out@;
        out.append("\n[[main]]\n");
        store_one(&mut out, &pars[i], "en");
        store_one(&mut out, &pars[i], "zh");
        assert(pars@.take(i + 1).drop_last() =~= pars@.take(i as int));
        assert(pars@.take(i + 1).last() == pars@[i as int]);
        assert(out@ =~= before + stored_entry(pars@[i as int]@));
        i += 1;
    }
    assert(pars@.take(pars@.len() as int) =~= pars@);
    out
}

/// The value of a sequence of decimal digits.
pub open spec fn digits_value(s: Seq<char>) -> nat
    decreases s.len(),
{
    if s.len() == 0 {
        0
    } else {
        digits_value(s.drop_last()) * 10 + (s.last() as nat - '0' as nat) as nat
    }
}

/// Whether every character of `s` is a decimal digit.
pub open spec fn all_digits(s: Seq<char>) -> bool {
    forall|i: int| 0 <= i < s.len() ==> '0' <= #[trigger] s[i] <= '9'
}

/// The number that `s` writes in decimal, with an optional leading `+`, if
/// it fits in a `usize`.
pub open spec fn parsed_index(s: Seq<char>) -> Option<usize> {
    let digits = if s.len() > 0 && s[0] == '+' {
        s.drop_first()
    } else {
        s
    };
    if digits.len() > 0 && all_digits(digits) && digits_value(digits) <= usize::MAX {
        Some(digits_value(digits) as usize)
    } else {
        None
    }
}

/// The text after the last dot of `s`, if `s` has a dot.
pub open spec fn after_last_dot(s: Seq<char>) -> Option<Seq<char>>
    decreases s.len(),
{
    if s.len() == 0 {
        None
    } else if s.last() == '.' {
        Some(seq![])
    } else {
        match after_last_dot(s.drop_last()) {
            Some(rest) => Some(rest.push(s.last())),
            None => None,
        }
    }
}

proof fn lemma_digits_value_monotone(s: Seq<char>, t: Seq<char>)
    requires
        all_digits(s + t),
    ensures
        digits_value(s + t) >= digits_value(s),
    decreases t.len(),
{
    if t.len() > 0 {
        assert((s + t).drop_last() =~= s + t.drop_last());
        assert(all_digits(s + t.drop_last())) by {
            assert forall|i: int| 0 <= i < (s + t.drop_last()).len() implies '0' <= #[trigger] (s
                + t.drop_last())[i] <= '9' by {
                assert((s + t.drop_last())[i] == (s + t)[i]);
            }
        }
        lemma_digits_value_monotone(s, t.drop_last());
    }
}

/// Finds the last dot of a text given as its characters.
fn find_last_dot(path: &str, chars: &Vec<char>) -> (r: Option<usize>)
    requires
        chars@ == path@,
    ensures
        match r {
            Some(d) => d < path@.len() && after_last_dot(path@) == Some(
                path@.subrange(d + 1, path@.len() as int),
            ),
            None => after_last_dot(path@) is None,
        },
{
    let n = chars.len();
    let mut j: usize = n;
    proof {
        assert(path@.take(n as int) =~= path@);
        match after_last_dot(path@) {
            Some(rest) => {
                assert(rest + path@.subrange(n as int, n as int) =~= rest);
            },
            None => {},
        }
    }
    while j > 0
        invariant
            j <= n == chars@.len(),
            chars@ == path@,
            after_last_dot(path@) == match after_last_dot(path@.take(j as int)) {
                Some(rest) => Some(rest + path@.subrange(j as int, n as int)),
                None => None,
            },
        decreases j,
    {
        let ghost t = path@.take(j as int);
        assert(t.drop_last() =~= path@.take(j - 1));
        assert(t.last() == path@[j - 1]);
        assert(path@.subrange(j - 1, n as int) =~= seq![path@[j - 1]] + path@.subrange(
            j as int,
            n as int,
        ));
        if chars[j - 1] == '.' {
            assert(Seq::<char>::empty() + path@.subrange(j as int, n as int) =~= path@.subrange(
                j as int,
                n as int,
            ));
            return Some(j - 1);
        }
        proof {
            match after_last_dot(path@.take(j - 1)) {
                Some(rest) => {
                    assert(rest.push(path@[j - 1]) + path@.subrange(j as int, n as int) =~= rest
                        + path@.subrange(j - 1, n as int));
                },
                None => {},
            }
        }
        j -= 1;
    }
    assert(path@.take(0) =~= Seq::<char>::empty());
    None
}

/// The number of a paragraph from its path in a translation file: the
/// decimal number after the last dot.
pub fn paragraph_index(path: &str) -> (r: Option<usize>)
    ensures
        r == match after_last_dot(path@) {
            Some(rest) => parsed_index(rest),
            None => None,
        },
{
    let chars = chars_of(path);
    let n = chars.len();
    let dot = match find_last_dot(path, &chars) {
        Some(d) => d,
        None => return None,
    };
    let ghost rest = path@.subrange(dot + 1, n as int);
    assert(after_last_dot(path@) == Some(rest));
    let mut i: usize = dot + 1;
    if i < n && chars[i] == '+' {
        i += 1;
    }
    let ghost digits = path@.subrange(i as int, n as int);
    assert(digits =~= if rest.len() > 0 && rest[0] == '+' {
        rest.drop_first()
    } else {
        rest
    });
    if i == n {
        return None;
    }
    let start = i;
    let mut value: usize = 0;
    while i < n
        invariant
            start <= i <= n == chars@.len(),
            chars@ == path@,
            after_last_dot(path@) == Some(rest),
            digits == (if rest.len() > 0 && rest[0] == '+' {
                rest.drop_first()
            } else {
                rest
            }),
            digits == path@.subrange(start as int, n as int),
            all_digits(path@.subrange(start as int, i as int)),
            value == digits_value(path@.subrange(start as int, i as int)),
        decreases n - i,
    {
        let c = chars[i];
        let ghost prefix = path@.subrange(start as int, i as int);
        let ghost next = path@.subrange(start as int, i + 1);
        assert(next.drop_last() =~= prefix);
        if c < '0' || c > '9' {
            assert(!all_digits(digits)) by {
                assert(digits[i - start] == c);
            }
            return None;
        }
        let d = (c as u32 - '0' as u32) as usize;
        assert(all_digits(next)) by {
            assert forall|k: int| 0 <= k < next.len() implies '0' <= #[trigger] next[k] <= '9' by {
                if k < prefix.len() {
                    assert(next[k] == prefix[k]);
                }
            }
        }
        if value > (usize::MAX - d) / 10 {
            proof {
                assert(digits_value(next) > usize::MAX) by (nonlinear_arith)
                    requires
                        digits_value(next) == value * 10 + d,
                        value > (usize::MAX - d) / 10,
                        d <= 9,
                {
                }
                if all_digits(digits) {
                    assert(digits =~= next + path@.subrange(i + 1, n as int));
                    lemma_digits_value_monotone(next, path@.subrange(i + 1, n as int));
                }
            }
            return None;
        }
        value = value * 10 + d;
        i += 1;
    }
    assert(digits =~= path@.subrange(start as int, i as int));
    Some(value)
}

} // verus!
