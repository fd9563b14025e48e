//! Property files: `key=value` lines, `#` comments, `\:` and `\=` escapes.

use vstd::prelude::*;
use vstd::slice::slice_subrange;
use vstd::string::*;

use crate::errors::{Error, ErrorView, KindView};
use crate::text::{chars_of, same_text, string_of};

verus! {

/// Whether `c` is white space, as Unicode defines it.
pub open spec fn is_space(c: char) -> bool {
    let n = c as u32;
    ||| 0x09 <= n <= 0x0d
    ||| n == 0x20
    ||| n == 0x85
    ||| n == 0xa0
    ||| n == 0x1680
    ||| 0x2000 <= n <= 0x200a
    ||| n == 0x2028
    ||| n == 0x2029
    ||| n == 0x202f
    ||| n == 0x205f
    ||| n == 0x3000
}

/// The first position from `from` on that holds no white space, or `to`.
pub open spec fn skip_spaces(s: Seq<char>, from: int, to: int) -> int
    decreases to - from,
{
    if from >= to {
        to
    } else if is_space(s[from]) {
        skip_spaces(s, from + 1, to)
    } else {
        from
    }
}

/// The position after the last character before `to` that is no white
/// space, or `from` where there is none.
pub open spec fn drop_spaces(s: Seq<char>, from: int, to: int) -> int
    decreases to - from,
{
    if from >= to {
        from
    } else if is_space(s[to - 1]) {
        drop_spaces(s, from, to - 1)
    } else {
        to
    }
}

/// `s` without the white space at its start and at its end.
pub open spec fn trimmed(s: Seq<char>) -> Seq<char> {
    let from = skip_spaces(s, 0, s.len() as int);
    s.subrange(from, drop_spaces(s, from, s.len() as int))
}

/// The first position from `from` on that holds `c`, or the length of `s`.
pub open spec fn find_char(s: Seq<char>, c: char, from: int) -> int
    decreases s.len() - from,
{
    if from < 0 || from >= s.len() {
        s.len() as int
    } else if s[from] == c {
        from
    } else {
        find_char(s, c, from + 1)
    }
}

/// `s` with every backslash that stands before `c` taken out, from left to right.
pub open spec fn unescaped(s: Seq<char>, c: char, from: int) -> Seq<char>
    decreases s.len() - from,
{
    if from < 0 || from >= s.len() {
        Seq::empty()
    } else if from + 1 < s.len() && s[from] == '\\' && s[from + 1] == c {
        seq![c] + unescaped(s, c, from + 2)
    } else {
        seq![s[from]] + unescaped(s, c, from + 1)
    }
}

/// The value of a property as it is written, with its escapes resolved.
pub open spec fn value_of(written: Seq<char>) -> Seq<char> {
    unescaped(unescaped(written, ':', 0), '=', 0)
}

/// The property that a line holds: none for a comment, for a line without
/// `=`, and for an empty key or value.
pub open spec fn parse_line(line: Seq<char>) -> Option<(Seq<char>, Seq<char>)> {
    let text = trimmed(line);
    let at = find_char(text, '=', 0);
    if text.len() > 0 && text[0] == '#' {
        None
    } else if at >= text.len() {
        None
    } else {
        let key = trimmed(text.subrange(0, at));
        let value = value_of(trimmed(text.subrange(at + 1, text.len() as int)));
        if key.len() == 0 || value.len() == 0 {
            None
        } else {
            Some((key, value))
        }
    }
}

/// The properties of the lines of `content` from position `from` on, in their order.
pub open spec fn parse_from(content: Seq<char>, from: int) -> Seq<(Seq<char>, Seq<char>)>
    decreases content.len() - from,
{
    if from < 0 || from > content.len() {
        Seq::empty()
    } else {
        let end = find_char(content, '\n', from);
        let rest = if from <= end < content.len() {
            parse_from(content, end + 1)
        } else {
            Seq::empty()
        };
        match parse_line(content.subrange(from, end)) {
            Some(pair) => seq![pair] + rest,
            None => rest,
        }
    }
}

/// The properties that `content` holds, in the order of its lines.
pub open spec fn parse_content(content: Seq<char>) -> Seq<(Seq<char>, Seq<char>)> {
    parse_from(content, 0)
}

/// The value of the last of the first `upto` pairs whose key is `key`.
pub open spec fn last_value(pairs: Seq<(Seq<char>, Seq<char>)>, key: Seq<char>, upto: int) -> Option<
    Seq<char>,
>
    decreases upto,
{
    if upto <= 0 || upto > pairs.len() {
        None
    } else if pairs[upto - 1].0 == key {
        Some(pairs[upto - 1].1)
    } else {
        last_value(pairs, key, upto - 1)
    }
}

/// The views of pairs of strings.
pub open spec fn pair_views(pairs: Seq<(String, String)>) -> Seq<(Seq<char>, Seq<char>)> {
    pairs.map_values(|pair: (String, String)| (pair.0@, pair.1@))
}

/// The error of a key that the properties do not hold.
pub open spec fn missing_key(key: Seq<char>) -> ErrorView {
    ErrorView {
        kind: KindView::UnrecognizedService,
        cause: Some("Cannot found key '"@ + key + "' in build properties"@),
    }
}

fn is_space_char(c: char) -> (yes: bool)
    ensures
        yes == is_space(c),
{
    let n = c as u32;
    (0x09 <= n && n <= 0x0d) || n == 0x20 || n == 0x85 || n == 0xa0 || n == 0x1680 || (0x2000 <= n
        && n <= 0x200a) || n == 0x2028 || n == 0x2029 || n == 0x202f || n == 0x205f || n == 0x3000
}

proof fn lemma_find_char(s: Seq<char>, c: char, from: int)
    requires
        0 <= from <= s.len(),
    ensures
        from <= find_char(s, c, from) <= s.len(),
        find_char(s, c, from) < s.len() ==> s[find_char(s, c, from)] == c,
    decreases s.len() - from,
{
    if from < s.len() && s[from] != c {
        lemma_find_char(s, c, from + 1);
    }
}

proof fn lemma_spaces(s: Seq<char>, from: int, to: int)
    requires
        0 <= from <= to <= s.len(),
    ensures
        from <= skip_spaces(s, from, to) <= to,
        from <= drop_spaces(s, from, to) <= to,
    decreases to - from,
{
    if from < to {
        lemma_spaces(s, from + 1, to);
        lemma_spaces(s, from, to - 1);
    }
}

/// The range of `s` between `from` and `to` without the white space at its ends.
fn trim_range(s: &[char], from: usize, to: usize) -> (range: (usize, usize))
    requires
        from <= to <= s@.len(),
    ensures
        from <= range.0 <= range.1 <= to,
        s@.subrange(range.0 as int, range.1 as int) == trimmed(s@.subrange(from as int, to as int)),
{
    let ghost part = s@.subrange(from as int, to as int);
    let mut a: usize = from;
    while a < to && is_space_char(s[a])
        invariant
            from <= a <= to <= s@.len(),
            part == s@.subrange(from as int, to as int),
            skip_spaces(part, 0, part.len() as int) == skip_spaces(part, a - from, part.len() as int),
        decreases to - a,
    {
        assert(part[a - from] == s@[a as int]);
        a += 1;
    }
    proof {
        if a < to {
            assert(part[a - from] == s@[a as int]);
        }
    }
    let mut b: usize = to;
    while b > a && is_space_char(s[b - 1])
        invariant
            from <= a <= b <= to <= s@.len(),
            part == s@.subrange(from as int, to as int),
            drop_spaces(part, a - from, part.len() as int) == drop_spaces(part, a - from, b - from),
        decreases b - a,
    {
        assert(part[b - 1 - from] == s@[b - 1]);
        b -= 1;
    }
    proof {
        if b > a {
            assert(part[b - 1 - from] == s@[b - 1]);
        }
        assert(s@.subrange(a as int, b as int) =~= part.subrange(a - from, b - from));
    }
    (a, b)
}

/// `s` with every backslash that stands before `c` taken out.
fn unescape(s: &[char], c: char) -> (out: Vec<char>)
    ensures
        out@ == unescaped(s@, c, 0),
{
    let mut out: Vec<char> = Vec::new();
    let mut i: usize = 0;
    while i < s.len()
        invariant
            i <= s@.len(),
            unescaped(s@, c, 0) == out@ + unescaped(s@, c, i as int),
        decreases s@.len() - i,
    {
        let ghost before = out@;
        if s.len() - i > 1 && s[i] == '\\' && s[i + 1] == c {
            out.push(c);
            assert(before + (seq![c] + unescaped(s@, c, i + 2)) =~= out@ + unescaped(s@, c, i + 2));
            i += 2;
        } else {
            out.push(s[i]);
            assert(before + (seq![s@[i as int]] + unescaped(s@, c, i + 1)) =~= out@ + unescaped(
                s@,
                c,
                i + 1,
            ));
            i += 1;
        }
    }
    assert(out@ + Seq::<char>::empty() =~= out@);
    out
}

/// The property that the characters of a line hold.
fn parse_chars(line: &[char]) -> (pair: Option<(String, String)>)
    ensures
        match pair {
            Some((key, value)) => parse_line(line@) == Some((key@, value@)),
            None => parse_line(line@) is None,
        },
{
    let (a, b) = trim_range(line, 0, line.len());
    assert(line@.subrange(0, line@.len() as int) =~= line@);
    let text = slice_subrange(line, a, b);
    if text.len() > 0 && text[0] == '#' {
        return None;
    }
    let mut at: usize = 0;
    while at < text.len() && text[at] != '='
        invariant
            at <= text@.len(),
            find_char(text@, '=', 0) == find_char(text@, '=', at as int),
        decreases text@.len() - at,
    {
        at += 1;
    }
    if at >= text.len() {
        return None;
    }
    let (ka, kb) = trim_range(text, 0, at);
    let (va, vb) = trim_range(text, at + 1, text.len());
    let key = slice_subrange(text, ka, kb);
    let written = slice_subrange(text, va, vb);
    let colons = unescape(written, ':');
    let value = unescape(colons.as_slice(), '=');
    if key.len() == 0 || value.len() == 0 {
        return None;
    }
    Some((string_of(key), string_of(value.as_slice())))
}

/// The properties of a file, in the order of its lines.
#[derive(Debug)]
pub struct Props {
    pub pairs: Vec<(String, String)>,
}

impl Props {
    /// The properties that `content` holds.
    pub fn from_content(content: &str) -> (props: Props)
        ensures
            pair_views(props.pairs@) == parse_content(content@),
    {
        let chars = chars_of(content);
        let text = chars.as_slice();
        let mut pairs: Vec<(String, String)> = Vec::new();
        let mut from: usize = 0;
        let mut done = false;
        while !done
            invariant
                from <= text@.len(),
                text@ == content@,
                !done ==> parse_content(content@) == pair_views(pairs@) + parse_from(
                    text@,
                    from as int,
                ),
                done ==> parse_content(content@) == pair_views(pairs@),
            decreases text@.len() - from + if done { 0int } else { 1int },
        {
            let mut end: usize = from;
            while end < text.len() && text[end] != '\n'
                invariant
                    from <= end <= text@.len(),
                    find_char(text@, '\n', from as int) == find_char(text@, '\n', end as int),
                decreases text@.len() - end,
            {
                end += 1;
            }
            let ghost before = pair_views(pairs@);
            let ghost rest = if end < text@.len() {
                parse_from(text@, end + 1)
            } else {
                Seq::empty()
            };
            let line = slice_subrange(text, from, end);
            match parse_chars(line) {
                Some(pair) => {
                    pairs.push(pair);
                    assert(pair_views(pairs@) + rest =~= before + (seq![(pair.0@, pair.1@)] + rest));
                },
                None => {},
            }
            if end < text.len() {
                from = end + 1;
            } else {
                assert(pair_views(pairs@) + rest =~= pair_views(pairs@));
                done = true;
            }
        }
        Props { pairs }
    }

    /// The value of `key`; of several lines with one key the last counts.
    pub fn key(&self, key: &str) -> (result: Result<&str, Error>)
        ensures
            match result {
                Ok(value) => last_value(pair_views(self.pairs@), key@, self.pairs@.len() as int)
                    == Some(value@),
                Err(error) => last_value(pair_views(self.pairs@), key@, self.pairs@.len() as int)
                    is None && error@ == missing_key(key@),
            },
    {
        let wanted = String::from_str(key);
        let mut i: usize = self.pairs.len();
        while i > 0
            invariant
                i <= self.pairs@.len(),
                wanted@ == key@,
                last_value(pair_views(self.pairs@), key@, self.pairs@.len() as int) == last_value(
                    pair_views(self.pairs@),
                    key@,
                    i as int,
                ),
            decreases i,
        {
            if same_text(&self.pairs[i - 1].0, &wanted) {
                return Ok(self.pairs[i - 1].1.as_str());
            }
            i -= 1;
        }
        let mut cause = String::from_str("Cannot found key '");
        cause.append(key);
        cause.append("' in build properties");
        Err(Error::unrecognized_service(cause.as_str()))
    }

    /// The property that a line holds, if it holds one.
    pub fn parse(line: &str) -> (pair: Option<(String, String)>)
        ensures
            match pair {
                Some((key, value)) => parse_line(line@) == Some((key@, value@)),
                None => parse_line(line@) is None,
            },
    {
        let chars = chars_of(line);
        parse_chars(chars.as_slice())
    }
}

} // verus!
