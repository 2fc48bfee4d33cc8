//! Credentials of the network, from a file of `NAME=value` lines.
//!
//! Blank lines and lines that begin with `#` say nothing. Space around a name or a value does not
//! count, nor do quotation marks around a value. Of several lines with the same name the last counts.

use vstd::prelude::*;

verus! {

/// Name of the network's name.
pub const WIFI_SSID: [char; 9] = ['W', 'I', 'F', 'I', '_', 'S', 'S', 'I', 'D'];

/// Name of the network's passphrase.
pub const WIFI_PASS: [char; 9] = ['W', 'I', 'F', 'I', '_', 'P', 'A', 'S', 'S'];

/// White space, as Unicode defines it.
pub open spec fn is_space(c: char) -> bool {
    ||| 0x09 <= c as int <= 0x0d
    ||| c as int == 0x20
    ||| c as int == 0x85
    ||| c as int == 0xa0
    ||| c as int == 0x1680
    ||| 0x2000 <= c as int <= 0x200a
    ||| c as int == 0x2028
    ||| c as int == 0x2029
    ||| c as int == 0x202f
    ||| c as int == 0x205f
    ||| c as int == 0x3000
}

/// What is stripped from the ends of a string.
#[derive(Clone, Copy, Debug, PartialEq, Eq, Structural)]
pub enum Junk {
    Space,
    Quotes,
}

/// The character is stripped.
pub open spec fn is_junk(junk: Junk, c: char) -> bool {
    match junk {
        Junk::Space => is_space(c),
        Junk::Quotes => c == '"',
    }
}

/// A string without junk at its beginning.
pub open spec fn strip_start(s: Seq<char>, junk: Junk) -> Seq<char>
    decreases s.len(),
{
    if s.len() > 0 && is_junk(junk, s[0]) {
        strip_start(s.drop_first(), junk)
    } else {
        s
    }
}

/// A string without junk at its end.
pub open spec fn strip_end(s: Seq<char>, junk: Junk) -> Seq<char>
    decreases s.len(),
{
    if s.len() > 0 && is_junk(junk, s.last()) {
        strip_end(s.drop_last(), junk)
    } else {
        s
    }
}

/// A string without junk at its ends.
pub open spec fn stripped(s: Seq<char>, junk: Junk) -> Seq<char> {
    strip_end(strip_start(s, junk), junk)
}

/// The first index of `c` in `s`, or the length of `s` if it is not there.
pub open spec fn index_of(s: Seq<char>, c: char) -> int
    decreases s.len(),
{
    if s.len() == 0 || s[0] == c {
        0
    } else {
        1 + index_of(s.drop_first(), c)
    }
}

/// Name and passphrase of a network.
pub struct Creds {
    pub ssid: Vec<char>,
    pub pass: Vec<char>,
}

/// Name and passphrase after a line of the file.
pub open spec fn after_line(
    was: (Seq<char>, Seq<char>),
    line: Seq<char>,
) -> (Seq<char>, Seq<char>) {
    let t = stripped(line, Junk::Space);
    let eq = index_of(t, '=');
    if t.len() == 0 || t[0] == '#' || eq == t.len() {
        was
    } else {
        let name = stripped(t.take(eq), Junk::Space);
        let value = stripped(stripped(t.skip(eq + 1), Junk::Space), Junk::Quotes);
        if name == WIFI_SSID@ {
            (value, was.1)
        } else if name == WIFI_PASS@ {
            (was.0, value)
        } else {
            was
        }
    }
}

/// Name and passphrase after the lines of `text`.
pub open spec fn after_text(
    was: (Seq<char>, Seq<char>),
    text: Seq<char>,
) -> (Seq<char>, Seq<char>)
    decreases text.len(),
{
    let end = index_of(text, '\n');
    if 0 <= end < text.len() {
        after_text(after_line(was, text.take(end)), text.skip(end + 1))
    } else {
        after_line(was, text)
    }
}

/// Whether a character is white space.
fn space(c: char) -> (r: bool)
    ensures
        r == is_space(c),
{
    let u: u32 = c as u32;
    (0x09 <= u && u <= 0x0d) || u == 0x20 || u == 0x85 || u == 0xa0 || u == 0x1680 || (0x2000 <= u
        && u <= 0x200a) || u == 0x2028 || u == 0x2029 || u == 0x202f || u == 0x205f || u == 0x3000
}

/// Whether a character is stripped.
fn junk_char(junk: Junk, c: char) -> (r: bool)
    ensures
        r == is_junk(junk, c),
{
    match junk {
        Junk::Space => space(c),
        Junk::Quotes => c == '"',
    }
}

/// Where `text[from..to]` without junk at its ends begins and ends.
fn strip(text: &[char], from: usize, to: usize, junk: Junk) -> (r: (usize, usize))
    requires
        from <= to <= text@.len(),
    ensures
        from <= r.0 <= r.1 <= to,
        text@.subrange(r.0 as int, r.1 as int) == stripped(
            text@.subrange(from as int, to as int),
            junk,
        ),
{
    let ghost whole = text@.subrange(from as int, to as int);
    let mut a: usize = from;
    while a < to && junk_char(junk, text[a])
        invariant
            from <= a <= to <= text@.len(),
            strip_start(text@.subrange(a as int, to as int), junk) == strip_start(whole, junk),
        decreases to - a,
    {
        let ghost rest = text@.subrange(a as int, to as int);
        a = a + 1;
        assert(rest.drop_first() =~= text@.subrange(a as int, to as int));
    }
    let ghost mid = text@.subrange(a as int, to as int);
    let mut b: usize = to;
    assert(strip_start(mid, junk) == mid);
    while a < b && junk_char(junk, text[b - 1])
        invariant
            from <= a <= b <= to <= text@.len(),
            strip_end(text@.subrange(a as int, b as int), junk) == strip_end(mid, junk),
        decreases b - a,
    {
        let ghost rest = text@.subrange(a as int, b as int);
        b = b - 1;
        assert(rest.drop_last() =~= text@.subrange(a as int, b as int));
    }
    (a, b)
}

/// The index of the first `c` in `text[from..to]`, or `to`.
fn find(text: &[char], from: usize, to: usize, c: char) -> (i: usize)
    requires
        from <= to <= text@.len(),
    ensures
        i == from + index_of(text@.subrange(from as int, to as int), c),
        from <= i <= to,
{
    let ghost whole = text@.subrange(from as int, to as int);
    let mut i: usize = from;
    while i < to && text[i] != c
        invariant
            from <= i <= to <= text@.len(),
            i - from + index_of(text@.subrange(i as int, to as int), c) == index_of(whole, c),
        decreases to - i,
    {
        let ghost rest = text@.subrange(i as int, to as int);
        i = i + 1;
        assert(rest.drop_first() =~= text@.subrange(i as int, to as int));
    }
    i
}

/// Whether `text[from..to]` is `name`.
fn is_name(text: &[char], from: usize, to: usize, name: &[char; 9]) -> (r: bool)
    requires
        from <= to <= text@.len(),
    ensures
        r == (text@.subrange(from as int, to as int) == name@),
{
    let ghost part = text@.subrange(from as int, to as int);
    if to - from != 9 {
        assert(part.len() != name@.len());
        return false;
    }
    let mut k: usize = 0;
    while k < 9
        invariant
            k <= 9,
            from + 9 == to <= text@.len(),
            part == text@.subrange(from as int, to as int),
            forall|j: int| 0 <= j < k ==> part[j] == name@[j],
        decreases 9 - k,
    {
        if text[from + k] != name[k] {
            assert(part[k as int] != name@[k as int]);
            return false;
        }
        k = k + 1;
    }
    assert(part =~= name@);
    true
}

/// The characters `text[from..to]`.
fn copy(text: &[char], from: usize, to: usize) -> (v: Vec<char>)
    requires
        from <= to <= text@.len(),
    ensures
        v@ == text@.subrange(from as int, to as int),
{
    let mut v: Vec<char> = Vec::new();
    let mut i: usize = from;
    while i < to
        invariant
            from <= i <= to <= text@.len(),
            v@ == text@.subrange(from as int, i as int),
        decreases to - i,
    {
        v.push(text[i]);
        i = i + 1;
        assert(v@ =~= text@.subrange(from as int, i as int));
    }
    v
}

/// Take account of the line `text[from..to]`.
fn take_line(creds: &mut Creds, text: &[char], from: usize, to: usize)
    requires
        from <= to <= text@.len(),
    ensures
        (final(creds).ssid@, final(creds).pass@) == after_line(
            (old(creds).ssid@, old(creds).pass@),
            text@.subrange(from as int, to as int),
        ),
{
    let (a, b) = strip(text, from, to, Junk::Space);
    let ghost t = text@.subrange(a as int, b as int);
    if a == b || text[a] == '#' {
        return ;
    }
    let eq: usize = find(text, a, b, '=');
    if eq == b {
        return ;
    }
    assert(t.take(eq - a) =~= text@.subrange(a as int, eq as int));
    assert(t.skip(eq - a + 1) =~= text@.subrange(eq + 1, b as int));
    let (n0, n1) = strip(text, a, eq, Junk::Space);
    let (v0, v1) = strip(text, eq + 1, b, Junk::Space);
    let (v0, v1) = strip(text, v0, v1, Junk::Quotes);
    if is_name(text, n0, n1, &WIFI_SSID) {
        creds.ssid = copy(text, v0, v1);
    } else if is_name(text, n0, n1, &WIFI_PASS) {
        creds.pass = copy(text, v0, v1);
    }
}

/// The credentials in the text of a file. What it does not say is empty.
pub fn parse_creds(text: &[char]) -> (creds: Creds)
    ensures
        (creds.ssid@, creds.pass@) == after_text(
            (Seq::<char>::empty(), Seq::<char>::empty()),
            text@,
        ),
{
    let mut creds = Creds { ssid: Vec::new(), pass: Vec::new() };
    let ghost none = (Seq::<char>::empty(), Seq::<char>::empty());
    let n: usize = text.len();
    let mut from: usize = 0;
    let mut to: usize = find(text, 0, n, '\n');
    assert(text@.subrange(0, n as int) =~= text@);
    while to < n
        invariant
            from <= to <= n == text@.len(),
            to == from + index_of(text@.subrange(from as int, n as int), '\n'),
            after_text((creds.ssid@, creds.pass@), text@.subrange(from as int, n as int))
                == after_text(none, text@),
        decreases n - from,
    {
        let ghost rest = text@.subrange(from as int, n as int);
        assert(rest.take(to - from) =~= text@.subrange(from as int, to as int));
        assert(rest.skip(to - from + 1) =~= text@.subrange(to + 1, n as int));
        take_line(&mut creds, text, from, to);
        from = to + 1;
        to = find(text, from, n, '\n');
    }
    take_line(&mut creds, text, from, n);
    creds
}

/// An empty text gives no credentials.
pub proof fn law_no_credentials()
    ensures
        after_text((Seq::<char>::empty(), Seq::<char>::empty()), Seq::<char>::empty()) == (
            Seq::<char>::empty(),
            Seq::<char>::empty(),
        ),
{
    assert(strip_start(Seq::<char>::empty(), Junk::Space) =~= Seq::empty());
}

/// A line leaves a credential as it is, or gives it a value that does not depend on what came
/// before: of several lines with the same name the last counts.
pub proof fn law_last_line_counts(
    was: (Seq<char>, Seq<char>),
    other: (Seq<char>, Seq<char>),
    line: Seq<char>,
)
    ensures
        after_line(was, line).0 == after_line(other, line).0 || (after_line(was, line).0 == was.0
            && after_line(other, line).0 == other.0),
        after_line(was, line).1 == after_line(other, line).1 || (after_line(was, line).1 == was.1
            && after_line(other, line).1 == other.1),
{
}

/// Every character of a string is stripped.
pub open spec fn all_junk(s: Seq<char>, junk: Junk) -> bool {
    forall|i: int| 0 <= i < s.len() ==> is_junk(junk, #[trigger] s[i])
}

/// Nothing is stripped from the ends of a string.
pub open spec fn clean(s: Seq<char>, junk: Junk) -> bool {
    s.len() > 0 ==> !is_junk(junk, s[0]) && !is_junk(junk, s.last())
}

proof fn lemma_strip_start(a: Seq<char>, s: Seq<char>, junk: Junk)
    requires
        all_junk(a, junk),
    ensures
        strip_start(a + s, junk) == strip_start(s, junk),
    decreases a.len(),
{
    if a.len() == 0 {
        assert(a + s =~= s);
    } else {
        assert(is_junk(junk, a[0]));
        assert((a + s).drop_first() =~= a.drop_first() + s);
        assert forall|i: int| 0 <= i < a.drop_first().len() implies is_junk(
            junk,
            #[trigger] a.drop_first()[i],
        ) by {
            assert(a.drop_first()[i] == a[i + 1]);
        }
        lemma_strip_start(a.drop_first(), s, junk);
    }
}

proof fn lemma_strip_end(s: Seq<char>, b: Seq<char>, junk: Junk)
    requires
        all_junk(b, junk),
    ensures
        strip_end(s + b, junk) == strip_end(s, junk),
    decreases b.len(),
{
    if b.len() == 0 {
        assert(s + b =~= s);
    } else {
        assert(is_junk(junk, b.last()));
        assert((s + b).drop_last() =~= s + b.drop_last());
        assert((s + b).last() == b.last());
        lemma_strip_end(s, b.drop_last(), junk);
    }
}

/// Stripping takes away exactly the junk at both ends of a string, however much there is.
pub proof fn law_stripped(a: Seq<char>, s: Seq<char>, b: Seq<char>, junk: Junk)
    requires
        all_junk(a, junk),
        all_junk(b, junk),
        clean(s, junk),
    ensures
        stripped(a + s + b, junk) == s,
{
    assert(a + s + b =~= a + (s + b));
    lemma_strip_start(a, s + b, junk);
    if s.len() == 0 {
        assert(s + b =~= b + Seq::empty());
        lemma_strip_start(b, Seq::empty(), junk);
        assert(strip_start(Seq::<char>::empty(), junk) =~= Seq::empty());
        assert(s =~= Seq::empty());
    } else {
        assert((s + b)[0] == s[0]);
        assert(strip_start(s + b, junk) == s + b);
        lemma_strip_end(s, b, junk);
    }
}

proof fn lemma_index_of(s: Seq<char>, c: char, rest: Seq<char>)
    requires
        forall|i: int| 0 <= i < s.len() ==> s[i] != c,
    ensures
        index_of(s + seq![c] + rest, c) == s.len(),
        index_of(s, c) == s.len(),
    decreases s.len(),
{
    let all = s + seq![c] + rest;
    if s.len() > 0 {
        lemma_index_of(s.drop_first(), c, rest);
        assert(all.drop_first() =~= s.drop_first() + seq![c] + rest);
        assert(all[0] == s[0]);
    } else {
        assert(all[0] == c);
    }
}

/// White space is the blank, the tab, the line ends and what else Unicode counts as space; letters
/// and digits, `=`, `#` and quotation marks are none.
pub proof fn law_space(c: char)
    ensures
        is_space(' ') && is_space('\t') && is_space('\r') && is_space('\n'),
        is_junk(Junk::Space, c) == is_space(c),
        is_junk(Junk::Quotes, c) <==> c == '"',
        c as int <= 0x7f ==> (is_space(c) <==> c as int == 0x20 || 0x09 <= c as int <= 0x0d),
{
}

/// A line that gives a name a value: space, name, space, `=`, space, quotation marks, value,
/// quotation marks, space. The value is what stands between, and the other credential is kept.
pub proof fn law_line(
    was: (Seq<char>, Seq<char>),
    name: Seq<char>,
    value: Seq<char>,
    sp1: Seq<char>,
    sp2: Seq<char>,
    sp3: Seq<char>,
    sp4: Seq<char>,
    open: Seq<char>,
    close: Seq<char>,
)
    requires
        name == WIFI_SSID@ || name == WIFI_PASS@,
        all_junk(sp1, Junk::Space),
        all_junk(sp2, Junk::Space),
        all_junk(sp3, Junk::Space),
        all_junk(sp4, Junk::Space),
        all_junk(open, Junk::Quotes),
        all_junk(close, Junk::Quotes),
        clean(value, Junk::Quotes),
        clean(open + value + close, Junk::Space),
    ensures
        after_line(was, sp1 + name + sp2 + seq!['='] + sp3 + open + value + close + sp4) == if name
            == WIFI_SSID@ {
            (value, was.1)
        } else {
            (was.0, value)
        },
{
    let quoted = open + value + close;
    let line = sp1 + name + sp2 + seq!['='] + sp3 + open + value + close + sp4;
    let left = name + sp2;
    assert(WIFI_SSID@.len() == 9 && WIFI_PASS@.len() == 9);
    assert(WIFI_SSID@[4] == '_' && WIFI_SSID@[5] == 'S' && WIFI_PASS@[5] == 'P');
    assert(clean(name, Junk::Space));
    assert(name[0] == 'W');
    // What is left of the line without the space around it.
    let (t, tail): (Seq<char>, Seq<char>) = if quoted.len() == 0 {
        (left + seq!['='], sp3 + sp4)
    } else {
        (left + seq!['='] + sp3 + quoted, sp4)
    };
    assert(line =~= sp1 + t + tail);
    assert(all_junk(tail, Junk::Space));
    assert(clean(t, Junk::Space));
    law_stripped(sp1, t, tail, Junk::Space);
    let right = t.skip(left.len() as int + 1);
    assert(t =~= left + seq!['='] + right);
    assert forall|i: int| 0 <= i < left.len() implies left[i] != '=' by {
        if i >= 9 {
            assert(is_junk(Junk::Space, sp2[i - 9]));
        }
    }
    lemma_index_of(left, '=', right);
    assert(t.take(left.len() as int) =~= left);
    assert(Seq::<char>::empty() + name + sp2 =~= left);
    law_stripped(Seq::empty(), name, sp2, Junk::Space);
    if quoted.len() == 0 {
        assert(right =~= Seq::empty());
        assert(value =~= Seq::empty());
        assert(Seq::<char>::empty() + value + Seq::<char>::empty() =~= right);
        law_stripped(Seq::empty(), value, Seq::empty(), Junk::Space);
        law_stripped(Seq::empty(), value, Seq::empty(), Junk::Quotes);
    } else {
        assert(right =~= sp3 + quoted + Seq::<char>::empty());
        law_stripped(sp3, quoted, Seq::empty(), Junk::Space);
        law_stripped(open, value, close, Junk::Quotes);
    }
}

/// A comment says nothing, and neither does a line without `=`.
pub proof fn law_line_ignored(was: (Seq<char>, Seq<char>), sp: Seq<char>, rest: Seq<char>)
    requires
        all_junk(sp, Junk::Space),
        clean(rest, Junk::Space),
        rest.len() == 0 || rest[0] == '#' || forall|i: int| 0 <= i < rest.len() ==> rest[i] != '=',
    ensures
        after_line(was, sp + rest) == was,
{
    assert(sp + rest =~= sp + rest + Seq::<char>::empty());
    law_stripped(sp, rest, Seq::empty(), Junk::Space);
    if forall|i: int| 0 <= i < rest.len() ==> rest[i] != '=' {
        lemma_index_of(rest, '=', Seq::empty());
    }
}

/// A text is taken line by line, from the first to the last.
pub proof fn law_lines(was: (Seq<char>, Seq<char>), line: Seq<char>, rest: Seq<char>)
    requires
        forall|i: int| 0 <= i < line.len() ==> line[i] != '\n',
    ensures
        after_text(was, line) == after_line(was, line),
        after_text(was, line + seq!['\n'] + rest) == after_text(after_line(was, line), rest),
{
    lemma_index_of(line, '\n', rest);
    let text = line + seq!['\n'] + rest;
    assert(text.take(line.len() as int) =~= line);
    assert(text.skip(line.len() as int + 1) =~= rest);
}

/// What `parse_creds` returns for a text of a single line that gives a name a value.
pub proof fn law_parse_line(text: &[char], creds: Creds, name: Seq<char>, value: Seq<char>)
    requires
        call_ensures(parse_creds, (text,), creds),
        name == WIFI_SSID@ || name == WIFI_PASS@,
        clean(value, Junk::Space),
        clean(value, Junk::Quotes),
        forall|i: int| 0 <= i < value.len() ==> value[i] != '\n',
        text@ == name + seq!['='] + value,
    ensures
        name == WIFI_SSID@ ==> creds.ssid@ == value && creds.pass@.len() == 0,
        name == WIFI_PASS@ ==> creds.pass@ == value && creds.ssid@.len() == 0,
{
    let none = Seq::<char>::empty();
    assert(WIFI_SSID@[5] == 'S' && WIFI_PASS@[5] == 'P');
    assert forall|i: int| 0 <= i < text@.len() implies text@[i] != '\n' by {
        if i >= 10 {
            assert(text@[i] == value[i - 10]);
        }
    }
    law_lines((none, none), text@, none);
    assert(none + value + none =~= value);
    law_line((none, none), name, value, none, none, none, none, none, none);
    assert(none + name + none + seq!['='] + none + none + value + none + none =~= text@);
}

} // verus!
