//! Text utilities of the emitter: decimal rendering of identities and byte
//! values, padding, and line indentation.

use vstd::prelude::*;
use vstd::string::{StringExecFns, StrSliceExecFns};

verus! {

/// The character of one decimal digit.
pub open spec fn digit_char(d: nat) -> char {
    if d == 0 {
        '0'
    } else if d == 1 {
        '1'
    } else if d == 2 {
        '2'
    } else if d == 3 {
        '3'
    } else if d == 4 {
        '4'
    } else if d == 5 {
        '5'
    } else if d == 6 {
        '6'
    } else if d == 7 {
        '7'
    } else if d == 8 {
        '8'
    } else {
        '9'
    }
}

/// The decimal representation of a number, most significant digit first.
pub open spec fn spec_dec(n: nat) -> Seq<char>
    decreases n,
{
    if n < 10 {
        seq![digit_char(n)]
    } else {
        spec_dec(n / 10).push(digit_char(n % 10))
    }
}

fn digit_str(d: usize) -> (r: &'static str)
    requires
        d < 10,
    ensures
        r@ == seq![digit_char(d as nat)],
{
    proof {
        reveal_strlit("0");
        reveal_strlit("1");
        reveal_strlit("2");
        reveal_strlit("3");
        reveal_strlit("4");
        reveal_strlit("5");
        reveal_strlit("6");
        reveal_strlit("7");
        reveal_strlit("8");
        reveal_strlit("9");
    }
    let r = match d {
        0 => "0",
        1 => "1",
        2 => "2",
        3 => "3",
        4 => "4",
        5 => "5",
        6 => "6",
        7 => "7",
        8 => "8",
        _ => "9",
    };
    proof {
        assert(r@ =~= seq![digit_char(d as nat)]);
    }
    r
}

/// Renders a number in decimal.
pub fn dec_string(n: usize) -> (s: String)
    ensures
        s@ == spec_dec(n as nat),
    decreases n,
{
    if n < 10 {
        String::from_str(digit_str(n))
    } else {
        let mut s = dec_string(n / 10);
        s.append(digit_str(n % 10));
        proof {
            assert(s@ =~= spec_dec(n as nat));
        }
        s
    }
}

/// Four spaces of padding per indentation level.
pub open spec fn spec_spaces(level: nat) -> Seq<char>
    decreases level,
{
    if level == 0 {
        Seq::empty()
    } else {
        spec_spaces((level - 1) as nat) + "    "@
    }
}

/// Builds the padding of one indentation depth.
pub fn spaces(level: usize) -> (s: String)
    ensures
        s@ == spec_spaces(level as nat),
{
    let mut s = String::new();
    let mut i: usize = 0;
    proof {
        assert(s@ =~= spec_spaces(0));
    }
    while i < level
        invariant
            i <= level,
            s@ == spec_spaces(i as nat),
        decreases level - i,
    {
        s.append("    ");
        i = i + 1;
    }
    s
}

/// The white-space characters (the Unicode White_Space set).
pub open spec fn is_space_char(c: char) -> bool {
    let u = c as u32;
    u == 0x20 || (0x09 <= u && u <= 0x0d) || u == 0x85 || u == 0xa0 || u == 0x1680 || (0x2000 <= u
        && u <= 0x200a) || u == 0x2028 || u == 0x2029 || u == 0x202f || u == 0x205f || u == 0x3000
}

fn is_space(c: char) -> (r: bool)
    ensures
        r == is_space_char(c),
{
    let u = c as u32;
    u == 0x20 || (0x09 <= u && u <= 0x0d) || u == 0x85 || u == 0xa0 || u == 0x1680 || (0x2000 <= u
        && u <= 0x200a) || u == 0x2028 || u == 0x2029 || u == 0x202f || u == 0x205f || u == 0x3000
}

/// A line is blank when every character is white space.
pub open spec fn line_blank(line: Seq<char>) -> bool {
    forall|i: int| 0 <= i < line.len() ==> is_space_char(#[trigger] line[i])
}

/// The position of the first line break at or after `from`, or the length.
pub open spec fn find_newline(s: Seq<char>, from: int) -> int
    decreases s.len() - from,
{
    if from < 0 || from >= s.len() {
        s.len() as int
    } else if s[from] == '\n' {
        from
    } else {
        find_newline(s, from + 1)
    }
}

pub proof fn lemma_find_newline_bounds(s: Seq<char>, from: int)
    requires
        0 <= from <= s.len(),
    ensures
        from <= find_newline(s, from) <= s.len(),
    decreases s.len() - from,
{
    if from < s.len() && s[from] != '\n' {
        lemma_find_newline_bounds(s, from + 1);
    }
}

/// A scan that saw no line break before `j`, and a break or the end at `j`,
/// found the first line break.
proof fn lemma_find_newline_scan(s: Seq<char>, from: int, j: int)
    requires
        0 <= from <= j <= s.len(),
        forall|m: int| from <= m < j ==> s[m] != '\n',
        j == s.len() || s[j] == '\n',
    ensures
        find_newline(s, from) == j,
    decreases j - from,
{
    if from < j {
        lemma_find_newline_scan(s, from + 1, j);
    }
}

/// The text from `from` on, indented line by line: a blank line is kept as it
/// stands, any other line gets the padding prefixed.
pub open spec fn spec_indent_from(s: Seq<char>, pad: Seq<char>, from: int) -> Seq<char>
    decreases s.len() - from,
    via spec_indent_from_dec
{
    let j = find_newline(s, from);
    let line = s.subrange(from, j);
    let head = if line_blank(line) {
        line
    } else {
        pad + line
    };
    if j >= s.len() {
        head
    } else {
        head + seq!['\n'] + spec_indent_from(s, pad, j + 1)
    }
}

#[via_fn]
proof fn spec_indent_from_dec(s: Seq<char>, pad: Seq<char>, from: int) {
    if 0 <= from && from <= s.len() {
        lemma_find_newline_bounds(s, from);
    } else if from < 0 {
        assert(find_newline(s, from) == s.len() as int);
    }
}

/// The whole text indented by `level` levels of four spaces, blank lines kept
/// unchanged.
pub open spec fn spec_indent(s: Seq<char>, level: nat) -> Seq<char> {
    spec_indent_from(s, spec_spaces(level), 0)
}

fn find_newline_exec(s: &str, from: usize, n: usize) -> (j: usize)
    requires
        from <= n,
        n == s@.len(),
    ensures
        from <= j <= n,
        j as int == find_newline(s@, from as int),
{
    let mut j = from;
    while j < n
        invariant
            from <= j <= n,
            n == s@.len(),
            forall|m: int| from <= m < j ==> s@[m] != '\n',
        decreases n - j,
    {
        if s.get_char(j) == '\n' {
            proof {
                lemma_find_newline_scan(s@, from as int, j as int);
            }
            return j;
        }
        j = j + 1;
    }
    proof {
        lemma_find_newline_scan(s@, from as int, j as int);
    }
    j
}

fn blank_between(s: &str, from: usize, to: usize) -> (r: bool)
    requires
        from <= to <= s@.len(),
    ensures
        r == line_blank(s@.subrange(from as int, to as int)),
{
    let ghost line = s@.subrange(from as int, to as int);
    let mut k = from;
    while k < to
        invariant
            from <= k <= to <= s@.len(),
            line == s@.subrange(from as int, to as int),
            forall|m: int| from <= m < k ==> is_space_char(#[trigger] s@[m]),
        decreases to - k,
    {
        let c = s.get_char(k);
        if !is_space(c) {
            proof {
                assert(line[k - from] == s@[k as int]);
            }
            return false;
        }
        k = k + 1;
    }
    proof {
        assert forall|i: int| 0 <= i < line.len() implies is_space_char(#[trigger] line[i]) by {
            assert(line[i] == s@[from + i]);
        }
    }
    true
}

/// Indents each line of the text by `level` levels of four spaces, leaving
/// lines of nothing but white space unchanged.
pub fn indent(s: &str, level: usize) -> (r: String)
    ensures
        r@ == spec_indent(s@, level as nat),
{
    let pad = spaces(level);
    let n = s.unicode_len();
    let mut r = String::new();
    let mut from: usize = 0;
    proof {
        assert(Seq::<char>::empty() + spec_indent_from(s@, pad@, 0) =~= spec_indent_from(
            s@,
            pad@,
            0,
        ));
    }
    loop
        invariant
            from <= n,
            n == s@.len(),
            pad@ == spec_spaces(level as nat),
            spec_indent(s@, level as nat) == r@ + spec_indent_from(s@, pad@, from as int),
        decreases n - from,
    {
        let ghost from0 = from as int;
        // Scan to the end of the current line.
        let j = find_newline_exec(s, from, n);
        let line = s.substring_char(from, j);
        let blank = blank_between(s, from, j);
        let ghost r0 = r@;
        if !blank {
            r.append(pad.as_str());
        }
        r.append(line);
        let ghost head = if line_blank(line@) {
            line@
        } else {
            pad@ + line@
        };
        proof {
            assert(r@ =~= r0 + head);
        }
        if j < n {
            r.append("\n");
            from = j + 1;
            proof {
                reveal_strlit("\n");
                assert(("\n")@ =~= seq!['\n']);
                assert(spec_indent_from(s@, pad@, from0) == head + seq!['\n'] + spec_indent_from(
                    s@,
                    pad@,
                    j + 1,
                ));
                assert(r@ + spec_indent_from(s@, pad@, from as int) =~= r0 + spec_indent_from(
                    s@,
                    pad@,
                    from0,
                ));
            }
        } else {
            proof {
                assert(spec_indent_from(s@, pad@, from0) == head);
            }
            return r;
        }
    }
}

} // verus!
