//! Character-level text helpers shared by the extractor and the renderer.
use vstd::prelude::*;

verus! {

/// The ten decimal digits, in order.
pub const DIGITS: &'static str = "0123456789";

/// The decimal rendering of `n`, most significant digit first, without
/// leading zeros.
pub open spec fn decimal(n: nat) -> Seq<char>
    decreases n,
{
    if n < 10 {
        seq![DIGITS@[n as int]]
    } else {
        decimal(n / 10).push(DIGITS@[(n % 10) as int])
    }
}

/// Writes `n` in decimal.
pub fn decimal_string(n: u32) -> (r: String)
    ensures
        r@ == decimal(n as nat),
    decreases n,
{
    proof {
        reveal_strlit("0123456789");
    }
    let d: usize = (n % 10) as usize;
    let digit = DIGITS.substring_char(d, d + 1);
    if n < 10 {
        String::from_str(digit)
    } else {
        let mut r = decimal_string(n / 10);
        r.append(digit);
        assert(r@ =~= decimal(n as nat));
        r
    }
}

/// The characters of `s`, in order.
pub fn chars_of(s: &str) -> (r: Vec<char>)
    ensures
        r@ == s@,
{
    let mut r: Vec<char> = Vec::new();
    for c in it: s.chars()
        invariant
            r@ == it.seq().take(it.index() as int),
    {
        r.push(c);
    }
    r
}

/// `pat` stands in `s` from index `i` on.
pub open spec fn occurs_at(s: Seq<char>, pat: Seq<char>, i: int) -> bool {
    0 <= i && i + pat.len() <= s.len() && s.subrange(i, i + pat.len()) == pat
}

/// ASCII letters and digits: the characters a track identifier is made of.
pub open spec fn is_alnum(c: char) -> bool {
    ('a' <= c && c <= 'z') || ('A' <= c && c <= 'Z') || ('0' <= c && c <= '9')
}

pub fn alnum(c: char) -> (r: bool)
    ensures
        r == is_alnum(c),
{
    ('a' <= c && c <= 'z') || ('A' <= c && c <= 'Z') || ('0' <= c && c <= '9')
}

/// The characters with the Unicode `White_Space` property.
pub open spec fn is_space(c: char) -> bool {
    let u = c as u32;
    (0x09 <= u && u <= 0x0d) || u == 0x20 || u == 0x85 || u == 0xa0 || u == 0x1680 || (0x2000
        <= u && u <= 0x200a) || u == 0x2028 || u == 0x2029 || u == 0x202f || u == 0x205f || u
        == 0x3000
}

pub fn space(c: char) -> (r: bool)
    ensures
        r == is_space(c),
{
    let u = c as u32;
    (0x09 <= u && u <= 0x0d) || u == 0x20 || u == 0x85 || u == 0xa0 || u == 0x1680 || (0x2000
        <= u && u <= 0x200a) || u == 0x2028 || u == 0x2029 || u == 0x202f || u == 0x205f || u
        == 0x3000
}

/// `s` without its leading white space.
pub open spec fn trim_start(s: Seq<char>) -> Seq<char>
    decreases s.len(),
{
    if s.len() > 0 && is_space(s[0]) {
        trim_start(s.drop_first())
    } else {
        s
    }
}

/// `s` without its trailing white space.
pub open spec fn trim_end(s: Seq<char>) -> Seq<char>
    decreases s.len(),
{
    if s.len() > 0 && is_space(s.last()) {
        trim_end(s.drop_last())
    } else {
        s
    }
}

/// `s` without white space at either end.
pub open spec fn trim(s: Seq<char>) -> Seq<char> {
    trim_end(trim_start(s))
}

/// `s` without one leading and one trailing double quote, where present.
pub open spec fn strip_quotes(s: Seq<char>) -> Seq<char> {
    let a = if s.len() > 0 && s[0] == '"' {
        s.drop_first()
    } else {
        s
    };
    if a.len() > 0 && a.last() == '"' {
        a.drop_last()
    } else {
        a
    }
}

/// The pieces of `s` between occurrences of `sep`, in order; there is always
/// one piece more than there are separators.
pub open spec fn split_on(s: Seq<char>, sep: char) -> Seq<Seq<char>>
    decreases s.len(),
{
    if s.len() == 0 {
        seq![Seq::empty()]
    } else {
        let rest = split_on(s.drop_last(), sep);
        if s.last() == sep {
            rest.push(Seq::empty())
        } else {
            rest.update(rest.len() - 1, rest.last().push(s.last()))
        }
    }
}

/// The lines of `s`: its pieces between newlines, where a newline that ends
/// the text opens no further line. A carriage return before a newline stays
/// at the end of its line, for the trimming that follows to take off.
pub open spec fn lines(s: Seq<char>) -> Seq<Seq<char>> {
    let p = split_on(s, '\n');
    if p.last().len() == 0 {
        p.drop_last()
    } else {
        p
    }
}

/// The views of a sequence of strings.
pub open spec fn views(v: Seq<String>) -> Seq<Seq<char>> {
    v.map_values(|x: String| x@)
}

pub proof fn lemma_split_on_nonempty(s: Seq<char>, sep: char)
    ensures
        split_on(s, sep).len() >= 1,
    decreases s.len(),
{
    if s.len() > 0 {
        lemma_split_on_nonempty(s.drop_last(), sep);
    }
}

proof fn lemma_trim_start_step(s: Seq<char>, i: int)
    requires
        0 <= i < s.len(),
        is_space(s[i]),
    ensures
        trim_start(s.subrange(i, s.len() as int)) == trim_start(s.subrange(i + 1, s.len() as int)),
{
    assert(s.subrange(i, s.len() as int).drop_first() =~= s.subrange(i + 1, s.len() as int));
}

proof fn lemma_trim_end_step(s: Seq<char>, j: int)
    requires
        0 < j <= s.len(),
        is_space(s[j - 1]),
    ensures
        trim_end(s.subrange(0, j)) == trim_end(s.subrange(0, j - 1)),
{
    assert(s.subrange(0, j).drop_last() =~= s.subrange(0, j - 1));
}

/// Copies `s` without white space at either end.
pub fn trim_text(s: &str) -> (r: String)
    ensures
        r@ == trim(s@),
{
    let cs = chars_of(s);
    let n = cs.len();
    let mut i: usize = 0;
    assert(s@.subrange(0, n as int) =~= s@);
    while i < n && space(cs[i])
        invariant
            i <= n,
            n == s@.len(),
            cs@ == s@,
            trim_start(s@) == trim_start(s@.subrange(i as int, n as int)),
        decreases n - i,
    {
        proof {
            lemma_trim_start_step(s@, i as int);
        }
        i = i + 1;
    }
    let ghost t = s@.subrange(i as int, n as int);
    assert(s@.subrange(i as int, n as int) =~= t);
    assert(trim_start(t) == t);
    assert(t.subrange(0, n - i) =~= t);
    let mut j: usize = n;
    while j > i && space(cs[j - 1])
        invariant
            i <= j <= n,
            n == s@.len(),
            cs@ == s@,
            t == s@.subrange(i as int, n as int),
            trim_end(t) == trim_end(t.subrange(0, j - i)),
        decreases j,
    {
        proof {
            lemma_trim_end_step(t, (j - i) as int);
        }
        j = j - 1;
    }
    assert(t.subrange(0, j - i) =~= s@.subrange(i as int, j as int));
    String::from_str(s.substring_char(i, j))
}

/// Copies `s` without one leading and one trailing double quote, where
/// present.
pub fn strip_quotes_text(s: &str) -> (r: String)
    ensures
        r@ == strip_quotes(s@),
{
    let n = s.unicode_len();
    let mut i: usize = 0;
    if n > 0 && s.get_char(0) == '"' {
        i = 1;
    }
    let mut j: usize = n;
    if j > i && s.get_char(j - 1) == '"' {
        j = j - 1;
    }
    let ghost a = if s@.len() > 0 && s@[0] == '"' {
        s@.drop_first()
    } else {
        s@
    };
    assert(a =~= s@.subrange(i as int, n as int));
    assert(s@.subrange(i as int, j as int) =~= strip_quotes(s@));
    String::from_str(s.substring_char(i, j))
}

/// Splits `s` at every occurrence of `sep`.
pub fn split_text(s: &str, sep: char) -> (r: Vec<String>)
    ensures
        views(r@) == split_on(s@, sep),
{
    let cs = chars_of(s);
    let n = cs.len();
    let mut r: Vec<String> = Vec::new();
    let mut start: usize = 0;
    let mut i: usize = 0;
    assert(s@.take(0) =~= Seq::<char>::empty());
    assert(views(r@).push(s@.subrange(0, 0)) =~= seq![Seq::<char>::empty()]);
    while i < n
        invariant
            start <= i <= n,
            n == s@.len(),
            cs@ == s@,
            views(r@).push(s@.subrange(start as int, i as int)) == split_on(s@.take(i as int), sep),
        decreases n - i,
    {
        let ghost prev = s@.take(i as int);
        let ghost done = views(r@);
        let ghost cur = s@.subrange(start as int, i as int);
        assert(s@.take(i + 1).drop_last() =~= prev);
        assert(s@.take(i + 1).last() == s@[i as int]);
        if cs[i] == sep {
            let piece = String::from_str(s.substring_char(start, i));
            r.push(piece);
            assert(views(r@) =~= done.push(cur));
            assert(split_on(s@.take(i + 1), sep) == split_on(prev, sep).push(Seq::empty()));
            assert(s@.subrange(i + 1, i + 1) =~= Seq::<char>::empty());
            start = i + 1;
        } else {
            assert(cur.push(s@[i as int]) =~= s@.subrange(start as int, i + 1));
            assert(done.push(cur).last() == cur);
            assert(done.push(s@.subrange(start as int, i + 1)) =~= done.push(cur).update(
                done.len() as int,
                cur.push(s@[i as int]),
            ));
        }
        i = i + 1;
    }
    let ghost done = views(r@);
    r.push(String::from_str(s.substring_char(start, n)));
    assert(views(r@) =~= done.push(s@.subrange(start as int, n as int)));
    assert(s@.take(n as int) =~= s@);
    r
}

/// Splits `s` into its lines.
pub fn lines_text(s: &str) -> (r: Vec<String>)
    ensures
        views(r@) == lines(s@),
{
    let mut r = split_text(s, '\n');
    proof {
        lemma_split_on_nonempty(s@, '\n');
    }
    let k = r.len() - 1;
    if r[k].unicode_len() == 0 {
        r.pop();
        assert(views(r@) =~= split_on(s@, '\n').drop_last());
    }
    r
}

} // verus!
