//! Character-level text operations used to build the tutorial: trimming,
//! counting lines, decimal numerals, joining and substring removal.
use vstd::prelude::*;

verus! {

broadcast use vstd::string::group_string_axioms;

/// The characters of `s`, in order, in a vector that can be indexed in constant time.
pub fn char_vec(s: &str) -> (r: Vec<char>)
    ensures
        r@ == s@,
{
    let mut r: Vec<char> = Vec::new();
    for c in it: s.chars()
        invariant
            it.seq() == s@,
            r@ == s@.take(it.index()),
    {
        r.push(c);
    }
    r
}

/// The characters `from..to` of `s` as an owned string.
pub fn char_range(s: &str, from: usize, to: usize) -> (r: String)
    requires
        from <= to <= s@.len(),
    ensures
        r@ == s@.subrange(from as int, to as int),
{
    let part = s.substring_char(from, to);
    part.to_owned()
}

// ---------------------------------------------------------------------------
// Whitespace and trimming
// ---------------------------------------------------------------------------

/// The characters with the Unicode `White_Space` property, which is what
/// `char::is_whitespace` and `str::trim` treat as whitespace.
pub open spec fn is_white_space(c: char) -> bool {
    ||| ('\u{9}' <= c && c <= '\u{d}')
    ||| c == ' '
    ||| c == '\u{85}'
    ||| c == '\u{a0}'
    ||| c == '\u{1680}'
    ||| ('\u{2000}' <= c && c <= '\u{200a}')
    ||| c == '\u{2028}'
    ||| c == '\u{2029}'
    ||| c == '\u{202f}'
    ||| c == '\u{205f}'
    ||| c == '\u{3000}'
}

/// Whether `c` is a whitespace character.
pub fn white_space(c: char) -> (r: bool)
    ensures
        r == is_white_space(c),
{
    ('\u{9}' <= c && c <= '\u{d}') || c == ' ' || c == '\u{85}' || c == '\u{a0}' || c == '\u{1680}'
        || ('\u{2000}' <= c && c <= '\u{200a}') || c == '\u{2028}' || c == '\u{2029}' || c
        == '\u{202f}' || c == '\u{205f}' || c == '\u{3000}'
}

/// `s` without its leading whitespace.
pub open spec fn trim_front(s: Seq<char>) -> Seq<char>
    decreases s.len(),
{
    if s.len() > 0 && is_white_space(s[0]) {
        trim_front(s.drop_first())
    } else {
        s
    }
}

/// `s` without its trailing whitespace.
pub open spec fn trim_back(s: Seq<char>) -> Seq<char>
    decreases s.len(),
{
    if s.len() > 0 && is_white_space(s.last()) {
        trim_back(s.drop_last())
    } else {
        s
    }
}

/// `s` without leading and trailing whitespace, as `str::trim` gives it.
pub open spec fn trimmed(s: Seq<char>) -> Seq<char> {
    trim_back(trim_front(s))
}

/// A copy of `s` with leading and trailing whitespace removed.
pub fn trim(s: &str) -> (r: String)
    ensures
        r@ == trimmed(s@),
{
    let cs = char_vec(s);
    let n = cs.len();
    let mut i: usize = 0;
    assert(s@.subrange(0, n as int) =~= s@);
    while i < n && white_space(cs[i])
        invariant
            cs@ == s@,
            n == s@.len(),
            i <= n,
            trim_front(s@) == trim_front(s@.subrange(i as int, n as int)),
        decreases n - i,
    {
        assert(s@.subrange(i as int, n as int).drop_first() =~= s@.subrange(i + 1, n as int));
        i = i + 1;
    }
    assert(trim_front(s@) == s@.subrange(i as int, n as int)) by {
        if i < n {
            assert(s@.subrange(i as int, n as int)[0] == s@[i as int]);
        } else {
            assert(s@.subrange(i as int, n as int).len() == 0);
        }
    }
    let mut j: usize = n;
    while j > i && white_space(cs[j - 1])
        invariant
            cs@ == s@,
            n == s@.len(),
            i <= j <= n,
            trim_back(s@.subrange(i as int, n as int)) == trim_back(
                s@.subrange(i as int, j as int),
            ),
        decreases j - i,
    {
        assert(s@.subrange(i as int, j as int).drop_last() =~= s@.subrange(i as int, j - 1));
        j = j - 1;
    }
    assert(trim_back(s@.subrange(i as int, j as int)) == s@.subrange(i as int, j as int)) by {
        if j > i {
            assert(s@.subrange(i as int, j as int).last() == s@[j - 1]);
        } else {
            assert(s@.subrange(i as int, j as int).len() == 0);
        }
    }
    char_range(s, i, j)
}

// ---------------------------------------------------------------------------
// Lines
// ---------------------------------------------------------------------------

/// How many times `'\n'` occurs in `s`.
pub open spec fn newline_count(s: Seq<char>) -> nat
    decreases s.len(),
{
    if s.len() == 0 {
        0
    } else {
        newline_count(s.drop_last()) + if s.last() == '\n' {
            1nat
        } else {
            0nat
        }
    }
}

/// The number of lines that `str::lines` yields for `s`: each line ends at a
/// `'\n'` (a `'\r'` before it is part of the ending), and a last line without
/// an ending counts too; the empty text has no lines.
pub open spec fn line_count(s: Seq<char>) -> nat {
    if s.len() == 0 {
        0
    } else if s.last() == '\n' {
        newline_count(s)
    } else {
        newline_count(s) + 1
    }
}

proof fn lemma_newline_count_bound(s: Seq<char>)
    ensures
        newline_count(s) <= s.len(),
    decreases s.len(),
{
    if s.len() > 0 {
        lemma_newline_count_bound(s.drop_last());
    }
}

/// The number of lines in `content`, as `content.lines().count()`.
pub fn count_lines(content: &str) -> (r: usize)
    ensures
        r == line_count(content@),
{
    let cs = char_vec(content);
    let n = cs.len();
    let mut count: usize = 0;
    let mut i: usize = 0;
    while i < n
        invariant
            cs@ == content@,
            n == content@.len(),
            i <= n,
            count == newline_count(content@.take(i as int)),
        decreases n - i,
    {
        assert(content@.take(i + 1).drop_last() =~= content@.take(i as int));
        proof {
            lemma_newline_count_bound(content@.take(i as int));
        }
        if cs[i] == '\n' {
            count = count + 1;
        }
        i = i + 1;
    }
    assert(content@.take(n as int) =~= content@);
    if n == 0 {
        0
    } else if cs[n - 1] == '\n' {
        count
    } else {
        proof {
            assert(content@.drop_last() =~= content@.take(n - 1));
            lemma_newline_count_bound(content@.drop_last());
        }
        count + 1
    }
}

/// A final line ending adds no line: a text that ends with `'\n'` has the
/// lines of the same text without it, where that text is not empty and does
/// not itself end with a line ending.
pub proof fn law_final_line_ending_adds_no_line(s: Seq<char>)
    requires
        s.len() > 0,
        s.last() != '\n',
    ensures
        line_count(s.push('\n')) == line_count(s),
{
    assert(s.push('\n').drop_last() =~= s);
}

/// The first line of `s`: its characters before the first `'\n'`.
pub open spec fn first_line(s: Seq<char>) -> Seq<char>
    decreases s.len(),
{
    if s.len() == 0 {
        s
    } else if s[0] == '\n' {
        Seq::empty()
    } else {
        seq![s[0]] + first_line(s.drop_first())
    }
}

/// The first line of `s`.
pub fn first_line_of(s: &str) -> (r: String)
    ensures
        r@ == first_line(s@),
{
    let cs = char_vec(s);
    let n = cs.len();
    let mut i: usize = 0;
    assert(s@.skip(0) =~= s@);
    assert(s@.take(0) + s@ =~= s@);
    while i < n && cs[i] != '\n'
        invariant
            cs@ == s@,
            n == s@.len(),
            i <= n,
            first_line(s@) == s@.take(i as int) + first_line(s@.skip(i as int)),
        decreases n - i,
    {
        let ghost rest = s@.skip(i as int);
        assert(rest[0] == s@[i as int]);
        assert(rest.drop_first() =~= s@.skip(i + 1));
        assert(s@.take(i as int) + (seq![rest[0]] + first_line(rest.drop_first())) =~= s@.take(
            i + 1,
        ) + first_line(s@.skip(i + 1)));
        i = i + 1;
    }
    assert(first_line(s@.skip(i as int)) =~= Seq::<char>::empty()) by {
        if i < n {
            assert(s@.skip(i as int)[0] == s@[i as int]);
        }
    }
    assert(s@.take(i as int) + Seq::<char>::empty() =~= s@.subrange(0, i as int));
    char_range(s, 0, i)
}

// ---------------------------------------------------------------------------
// Decimal numerals
// ---------------------------------------------------------------------------

/// The numeral character for a digit `d < 10`.
pub open spec fn digit_char(d: nat) -> char {
    if d == 0 {
        '0'
    } else if d == 1 {
        '1'
    } else if d == 2 {
        '2'
    } else if d == 3 {
        '3'
    } else if d == 4 {
        '4'
    } else if d == 5 {
        '5'
    } else if d == 6 {
        '6'
    } else if d == 7 {
        '7'
    } else if d == 8 {
        '8'
    } else {
        '9'
    }
}

/// The decimal numeral of `n`, without leading zeros, as `{}` formats an integer.
pub open spec fn decimal(n: nat) -> Seq<char>
    decreases n,
{
    if n < 10 {
        seq![digit_char(n)]
    } else {
        decimal(n / 10).push(digit_char(n % 10))
    }
}

fn digit_str(d: usize) -> (r: &'static str)
    requires
        d < 10,
    ensures
        r@ == seq![digit_char(d as nat)],
{
    proof {
        reveal_strlit("0");
        reveal_strlit("1");
        reveal_strlit("2");
        reveal_strlit("3");
        reveal_strlit("4");
        reveal_strlit("5");
        reveal_strlit("6");
        reveal_strlit("7");
        reveal_strlit("8");
        reveal_strlit("9");
    }
    let r = if d == 0 {
        "0"
    } else if d == 1 {
        "1"
    } else if d == 2 {
        "2"
    } else if d == 3 {
        "3"
    } else if d == 4 {
        "4"
    } else if d == 5 {
        "5"
    } else if d == 6 {
        "6"
    } else if d == 7 {
        "7"
    } else if d == 8 {
        "8"
    } else {
        "9"
    };
    assert(r@ =~= seq![digit_char(d as nat)]);
    r
}

/// The decimal numeral of `n`.
pub fn decimal_string(n: usize) -> (r: String)
    ensures
        r@ == decimal(n as nat),
{
    let mut rest: usize = n;
    let mut tail = String::new();
    while rest >= 10
        invariant
            decimal(n as nat) == decimal(rest as nat) + tail@,
        decreases rest,
    {
        let d = digit_str(rest % 10);
        let head = String::from_str(d);
        let ghost old_tail = tail@;
        tail = head.concat(tail.as_str());
        assert(decimal(rest as nat) == decimal((rest / 10) as nat).push(digit_char((rest % 10) as nat)));
        assert(decimal(rest as nat) + old_tail =~= decimal((rest / 10) as nat) + tail@);
        rest = rest / 10;
    }
    let head = String::from_str(digit_str(rest));
    head.concat(tail.as_str())
}

// ---------------------------------------------------------------------------
// Joining
// ---------------------------------------------------------------------------

/// The items one after the other, with `sep` between each two of them.
pub open spec fn joined(items: Seq<Seq<char>>, sep: Seq<char>) -> Seq<char>
    decreases items.len(),
{
    if items.len() == 0 {
        Seq::empty()
    } else if items.len() == 1 {
        items[0]
    } else {
        joined(items.drop_last(), sep) + sep + items.last()
    }
}

/// The views of a list of strings.
pub open spec fn views(items: Seq<String>) -> Seq<Seq<char>> {
    items.map_values(|s: String| s@)
}

/// `items` joined by `sep`, as `[String]::join` gives it.
pub fn join(items: &Vec<String>, sep: &str) -> (r: String)
    ensures
        r@ == joined(views(items@), sep@),
{
    let mut r = String::new();
    let n = items.len();
    let mut i: usize = 0;
    while i < n
        invariant
            n == items@.len(),
            i <= n,
            r@ == joined(views(items@.take(i as int)), sep@),
        decreases n - i,
    {
        assert(views(items@.take(i + 1)).drop_last() =~= views(items@.take(i as int)));
        assert(views(items@.take(i + 1)).last() == items@[i as int]@);
        if i > 0 {
            r.append(sep);
        } else {
            assert(views(items@.take(i as int)) =~= Seq::<Seq<char>>::empty());
        }
        r.append(items[i].as_str());
        i = i + 1;
    }
    assert(items@.take(n as int) =~= items@);
    r
}

/// Joining keeps every item: each of `items` stands, whole and in order of
/// the list, inside the joined text, the `k`-th at the position that the
/// items and separators before it take up.
pub proof fn law_joined_holds_every_item(items: Seq<Seq<char>>, sep: Seq<char>, k: int)
    requires
        0 <= k < items.len(),
    ensures
        ({
            let j = joined(items, sep);
            let at: int = joined(items.take(k), sep).len() + (if k > 0 { sep.len() as int } else { 0 });
            &&& at + items[k].len() <= j.len()
            &&& j.subrange(at, at + items[k].len()) == items[k]
        }),
    decreases items.len(),
{
    let j = joined(items, sep);
    let n = items.len();
    if k == n - 1 {
        assert(items.take(k) =~= items.drop_last());
        if n == 1 {
            assert(items.take(0) =~= Seq::<Seq<char>>::empty());
            assert(j.subrange(0, items[0].len() as int) =~= items[0]);
        } else {
            let front = joined(items.drop_last(), sep) + sep;
            assert(j == front + items.last());
            assert(j.subrange(front.len() as int, j.len() as int) =~= items.last());
        }
    } else {
        law_joined_holds_every_item(items.drop_last(), sep, k);
        assert(items.drop_last().take(k) =~= items.take(k));
        assert(items.drop_last()[k] == items[k]);
        let inner = joined(items.drop_last(), sep);
        let at: int = joined(items.take(k), sep).len() + (if k > 0 { sep.len() as int } else { 0 });
        assert(n >= 2);
        assert(j == inner + sep + items.last());
        assert(j.subrange(at, at + items[k].len()) =~= inner.subrange(at, at + items[k].len()));
    }
}

} // verus!
