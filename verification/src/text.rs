//! Character-level helpers shared by the request parser and the response
//! serializer: whitespace classification, tokenization, line splitting,
//! trimming, substring search, and decimal rendering of lengths.

use vstd::prelude::*;
use vstd::string::*;

verus! {

/// The whitespace characters recognized by the tokenizer and by trimming.
pub open spec fn is_ws(c: char) -> bool {
    c == ' ' || c == '\t' || c == '\r' || c == '\n' || c == '\u{b}' || c == '\u{c}'
}

pub fn is_ws_char(c: char) -> (r: bool)
    ensures
        r == is_ws(c),
{
    c == ' ' || c == '\t' || c == '\r' || c == '\n' || c == '\u{b}' || c == '\u{c}'
}

/// Character-for-character string equality.
pub fn str_eq(a: &str, b: &str) -> (r: bool)
    ensures
        r == (a@ == b@),
{
    let na = a.unicode_len();
    let nb = b.unicode_len();
    if na != nb {
        return false;
    }
    let mut i: usize = 0;
    while i < na
        invariant
            na == a@.len(),
            na == b@.len(),
            0 <= i <= na,
            forall|j: int| 0 <= j < i ==> a@[j] == b@[j],
        decreases na - i,
    {
        if a.get_char(i) != b.get_char(i) {
            return false;
        }
        i += 1;
    }
    proof {
        assert(a@ =~= b@);
    }
    true
}

/// The text with its leading whitespace removed.
pub open spec fn skip_ws(s: Seq<char>) -> Seq<char>
    decreases s.len(),
{
    if s.len() == 0 {
        s
    } else if is_ws(s[0]) {
        skip_ws(s.drop_first())
    } else {
        s
    }
}

/// The longest whitespace-free prefix of the text.
pub open spec fn take_tok(s: Seq<char>) -> Seq<char>
    decreases s.len(),
{
    if s.len() == 0 || is_ws(s[0]) {
        Seq::empty()
    } else {
        seq![s[0]] + take_tok(s.drop_first())
    }
}

/// The slice of the input that remains once leading whitespace is removed.
pub fn skip_ws_str<'a>(s: &'a str) -> (r: &'a str)
    ensures
        r@ == skip_ws(s@),
{
    let n = s.unicode_len();
    proof {
        assert(s@.subrange(0, n as int) =~= s@);
    }
    let mut i: usize = 0;
    loop
        invariant
            0 <= i <= n,
            n == s@.len(),
            skip_ws(s@) == skip_ws(s@.subrange(i as int, n as int)),
        decreases n - i,
    {
        if i == n {
            return s.substring_char(i, n);
        }
        proof {
            let suf = s@.subrange(i as int, n as int);
            assert(suf[0] == s@[i as int]);
        }
        if !is_ws_char(s.get_char(i)) {
            proof {
                let suf = s@.subrange(i as int, n as int);
                assert(skip_ws(suf) == suf);
            }
            return s.substring_char(i, n);
        }
        proof {
            assert(s@.subrange(i as int, n as int).drop_first() =~= s@.subrange(
                i as int + 1,
                n as int,
            ));
        }
        i += 1;
    }
}

/// The first whitespace-delimited token of the input, and everything after it.
pub fn take_tok_str<'a>(s: &'a str) -> (r: (&'a str, &'a str))
    ensures
        r.0@ == take_tok(s@),
        r.1@ == s@.skip(take_tok(s@).len() as int),
{
    let n = s.unicode_len();
    proof {
        assert(s@.subrange(0, n as int) =~= s@);
        assert(s@.subrange(0, 0) + take_tok(s@) =~= take_tok(s@));
    }
    let mut i: usize = 0;
    loop
        invariant
            0 <= i <= n,
            n == s@.len(),
            take_tok(s@) == s@.subrange(0, i as int) + take_tok(s@.subrange(i as int, n as int)),
        decreases n - i,
    {
        let done = i == n || is_ws_char(s.get_char(i));
        proof {
            let suf = s@.subrange(i as int, n as int);
            if i < n {
                assert(suf[0] == s@[i as int]);
            }
            if done {
                assert(take_tok(suf) == Seq::<char>::empty());
                assert(s@.subrange(0, i as int) + Seq::<char>::empty() =~= s@.subrange(0, i as int));
                assert(take_tok(s@) == s@.subrange(0, i as int));
                assert(suf =~= s@.skip(i as int));
            }
        }
        if done {
            return (s.substring_char(0, i), s.substring_char(i, n));
        }
        proof {
            let suf = s@.subrange(i as int, n as int);
            assert(suf.drop_first() =~= s@.subrange(i as int + 1, n as int));
            assert(s@.subrange(0, i as int) + seq![s@[i as int]] =~= s@.subrange(0, i as int + 1));
            assert(s@.subrange(0, i as int + 1) + take_tok(s@.subrange(i as int + 1, n as int))
                =~= s@.subrange(0, i as int) + (seq![suf[0]] + take_tok(suf.drop_first())));
        }
        i += 1;
    }
}

/// The position of the first occurrence of `c`, or the length when absent.
pub open spec fn pos_of(s: Seq<char>, c: char) -> nat
    decreases s.len(),
{
    if s.len() == 0 {
        0
    } else if s[0] == c {
        0
    } else {
        1 + pos_of(s.drop_first(), c)
    }
}

/// The index of the first occurrence of `c` in the input, if any.
pub fn find_char(s: &str, c: char) -> (r: Option<usize>)
    ensures
        r is Some <==> pos_of(s@, c) < s@.len(),
        r matches Some(i) ==> i == pos_of(s@, c) && s@[i as int] == c,
        r is None ==> pos_of(s@, c) == s@.len(),
{
    let n = s.unicode_len();
    proof {
        assert(s@.subrange(0, n as int) =~= s@);
    }
    let mut i: usize = 0;
    while i < n
        invariant
            0 <= i <= n,
            n == s@.len(),
            pos_of(s@, c) == i + pos_of(s@.subrange(i as int, n as int), c),
        decreases n - i,
    {
        proof {
            let suf = s@.subrange(i as int, n as int);
            assert(suf[0] == s@[i as int]);
        }
        if s.get_char(i) == c {
            proof {
                let suf = s@.subrange(i as int, n as int);
                assert(pos_of(suf, c) == 0);
            }
            return Some(i);
        }
        proof {
            let suf = s@.subrange(i as int, n as int);
            assert(suf.drop_first() =~= s@.subrange(i as int + 1, n as int));
        }
        i += 1;
    }
    proof {
        let suf = s@.subrange(i as int, n as int);
        assert(pos_of(suf, c) == 0);
    }
    None
}

/// The text with its trailing whitespace removed.
pub open spec fn trim_end(s: Seq<char>) -> Seq<char>
    decreases s.len(),
{
    if s.len() == 0 {
        s
    } else if is_ws(s.last()) {
        trim_end(s.drop_last())
    } else {
        s
    }
}

/// The text with whitespace removed from both ends.
pub open spec fn trim_ws(s: Seq<char>) -> Seq<char> {
    trim_end(skip_ws(s))
}

/// The slice of the input with whitespace removed from both ends.
pub fn trim_str<'a>(s: &'a str) -> (r: &'a str)
    ensures
        r@ == trim_ws(s@),
{
    let t = skip_ws_str(s);
    let n = t.unicode_len();
    proof {
        assert(t@.subrange(0, n as int) =~= t@);
    }
    let mut j: usize = n;
    loop
        invariant
            0 <= j <= n,
            n == t@.len(),
            t@ == skip_ws(s@),
            trim_end(t@) == trim_end(t@.subrange(0, j as int)),
        decreases j,
    {
        if j == 0 {
            proof {
                assert(t@.subrange(0, 0).len() == 0);
                assert(trim_end(t@.subrange(0, 0)) == t@.subrange(0, 0));
                assert(t@ == skip_ws(s@));
                assert(trim_ws(s@) == trim_end(t@));
            }
            return t.substring_char(0, j);
        }
        proof {
            let pre = t@.subrange(0, j as int);
            assert(pre.last() == t@[j as int - 1]);
        }
        if !is_ws_char(t.get_char(j - 1)) {
            proof {
                let pre = t@.subrange(0, j as int);
                assert(trim_end(pre) == pre);
                assert(t@ == skip_ws(s@));
                assert(trim_ws(s@) == trim_end(t@));
            }
            return t.substring_char(0, j);
        }
        proof {
            let pre = t@.subrange(0, j as int);
            assert(pre.drop_last() =~= t@.subrange(0, j as int - 1));
        }
        j -= 1;
    }
}

/// Whether the text holds `HTTP` as a contiguous substring.
pub open spec fn has_http(s: Seq<char>) -> bool {
    exists|i: int| 0 <= i && i + 4 <= s.len() && #[trigger] s.subrange(i, i + 4) == "HTTP"@
}

/// Whether the input holds `HTTP` as a contiguous substring.
pub fn contains_http(s: &str) -> (r: bool)
    ensures
        r == has_http(s@),
{
    let n = s.unicode_len();
    if n < 4 {
        return false;
    }
    let mut i: usize = 0;
    while i <= n - 4
        invariant
            4 <= n == s@.len(),
            0 <= i <= n - 3,
            forall|j: int| 0 <= j < i ==> #[trigger] s@.subrange(j, j + 4) != "HTTP"@,
        decreases n - i,
    {
        let hit = s.get_char(i) == 'H' && s.get_char(i + 1) == 'T' && s.get_char(i + 2) == 'T'
            && s.get_char(i + 3) == 'P';
        proof {
            reveal_strlit("HTTP");
            let sub = s@.subrange(i as int, i as int + 4);
            if hit {
                assert(sub =~= "HTTP"@);
            } else {
                assert(sub[0] == s@[i as int]);
                assert(sub[1] == s@[i as int + 1]);
                assert(sub[2] == s@[i as int + 2]);
                assert(sub[3] == s@[i as int + 3]);
                assert(sub != "HTTP"@);
            }
        }
        if hit {
            return true;
        }
        i += 1;
    }
    false
}

/// Line `l` followed by terminator position `p`: the line with a trailing
/// carriage return removed, as the line splitter reports it.
pub open spec fn chomp_cr(l: Seq<char>) -> Seq<char> {
    if l.len() > 0 && l.last() == '\r' {
        l.drop_last()
    } else {
        l
    }
}

/// The lines of the text: split at `\n`, with a carriage return directly
/// before the split removed, and an optional final unterminated line kept.
pub open spec fn split_lines(s: Seq<char>) -> Seq<Seq<char>>
    decreases s.len(),
{
    if s.len() == 0 {
        Seq::empty()
    } else {
        let p = pos_of(s, '\n');
        if p >= s.len() {
            seq![s]
        } else {
            seq![chomp_cr(s.subrange(0, p as int))] + split_lines(
                s.subrange(p as int + 1, s.len() as int),
            )
        }
    }
}

/// Splits the input into its lines.
pub fn split_into_lines(s: &str) -> (lines: Vec<String>)
    ensures
        lines.deep_view() == split_lines(s@),
{
    let mut lines: Vec<String> = Vec::new();
    let mut rest: &str = s;
    loop
        invariant
            lines.deep_view() + split_lines(rest@) == split_lines(s@),
        decreases rest@.len(),
    {
        if rest.is_empty() {
            proof {
                assert(lines.deep_view() + split_lines(rest@) =~= lines.deep_view());
            }
            return lines;
        }
        let ghost prev = lines.deep_view();
        let n = rest.unicode_len();
        match find_char(rest, '\n') {
            Some(p) => {
                let mut end = p;
                if end > 0 && rest.get_char(end - 1) == '\r' {
                    end -= 1;
                }
                let line = rest.substring_char(0, end);
                proof {
                    let raw = rest@.subrange(0, p as int);
                    if p > 0 && rest@[p as int - 1] == '\r' {
                        assert(raw.last() == rest@[p as int - 1]);
                        assert(raw.drop_last() =~= rest@.subrange(0, p as int - 1));
                    }
                    assert(line@ == chomp_cr(raw));
                }
                lines.push(String::from_str(line));
                let tail = rest.substring_char(p + 1, n);
                proof {
                    assert(lines.deep_view() =~= prev.push(line@));
                    assert(prev.push(line@) + split_lines(tail@) =~= prev + (seq![chomp_cr(
                        rest@.subrange(0, p as int),
                    )] + split_lines(tail@)));
                }
                rest = tail;
            },
            None => {
                lines.push(String::from_str(rest));
                proof {
                    assert(split_lines(rest@) =~= seq![rest@]);
                    assert(lines.deep_view() =~= prev.push(rest@));
                    assert(prev.push(rest@) + Seq::<Seq<char>>::empty() =~= prev + seq![rest@]);
                }
                rest = rest.substring_char(n, n);
                proof {
                    assert(rest@ =~= Seq::<char>::empty());
                }
            },
        }
    }
}

/// The decimal digit character for a value below ten.
pub open spec fn dec_digit(d: nat) -> char {
    if d == 0 {
        '0'
    } else if d == 1 {
        '1'
    } else if d == 2 {
        '2'
    } else if d == 3 {
        '3'
    } else if d == 4 {
        '4'
    } else if d == 5 {
        '5'
    } else if d == 6 {
        '6'
    } else if d == 7 {
        '7'
    } else if d == 8 {
        '8'
    } else {
        '9'
    }
}

/// The decimal rendering of a number, without leading zeros.
pub open spec fn dec_str(n: nat) -> Seq<char>
    decreases n,
{
    if n < 10 {
        seq![dec_digit(n)]
    } else {
        dec_str(n / 10) + seq![dec_digit(n % 10)]
    }
}

fn digit_str(d: usize) -> (r: &'static str)
    requires
        d < 10,
    ensures
        r@ == seq![dec_digit(d as nat)],
{
    let r: &'static str = match d {
        0 => "0",
        1 => "1",
        2 => "2",
        3 => "3",
        4 => "4",
        5 => "5",
        6 => "6",
        7 => "7",
        8 => "8",
        _ => "9",
    };
    proof {
        reveal_strlit("0");
        reveal_strlit("1");
        reveal_strlit("2");
        reveal_strlit("3");
        reveal_strlit("4");
        reveal_strlit("5");
        reveal_strlit("6");
        reveal_strlit("7");
        reveal_strlit("8");
        reveal_strlit("9");
        assert(r@ =~= seq![dec_digit(d as nat)]);
    }
    r
}

/// Renders a number in decimal.
pub fn usize_to_string(n: usize) -> (s: String)
    ensures
        s@ == dec_str(n as nat),
    decreases n,
{
    let last = digit_str(n % 10);
    if n < 10 {
        String::from_str(last)
    } else {
        let s = usize_to_string(n / 10).concat(last);
        proof {
            assert(s@ =~= dec_str(n as nat));
        }
        s
    }
}

} // verus!

