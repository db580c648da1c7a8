use vstd::prelude::*;
use vstd::string::*;

use crate::text::{
    all_digits, copy_range, chars_of, decimal_value, is_digit, is_unicode_whitespace, is_whitespace_char,
    lemma_decimal_value_monotone, lossy_string, lossy_utf8, push_char, string_from_chars,
};

verus! {

broadcast use vstd::string::group_string_axioms;

/// Length of the run of non-white-space characters at the start of `s`.
pub open spec fn token_len(s: Seq<char>) -> nat
    decreases s.len(),
{
    if s.len() == 0 || is_unicode_whitespace(s[0]) {
        0
    } else {
        1 + token_len(s.skip(1))
    }
}

pub proof fn lemma_token_len_bound(s: Seq<char>)
    ensures
        token_len(s) <= s.len(),
        s.len() > 0 && !is_unicode_whitespace(s[0]) ==> token_len(s) >= 1,
    decreases s.len(),
{
    if s.len() > 0 && !is_unicode_whitespace(s[0]) {
        lemma_token_len_bound(s.skip(1));
    }
}

/// The white-space separated fields of `s`, as `str::split_whitespace` yields them.
pub open spec fn split_whitespace_spec(s: Seq<char>) -> Seq<Seq<char>>
    decreases s.len(),
{
    if s.len() == 0 {
        Seq::empty()
    } else if is_unicode_whitespace(s[0]) {
        split_whitespace_spec(s.skip(1))
    } else {
        proof {
            lemma_token_len_bound(s);
        }
        seq![s.take(token_len(s) as int)] + split_whitespace_spec(s.skip(token_len(s) as int))
    }
}

/// The fields of a list of character vectors.
pub open spec fn field_seqs(v: Seq<Vec<char>>) -> Seq<Seq<char>> {
    Seq::new(v.len(), |i: int| v[i]@)
}

/// The white-space separated fields of `cs[from..]`.
pub fn split_whitespace_chars(cs: &Vec<char>, from: usize) -> (r: Vec<Vec<char>>)
    requires
        from <= cs@.len(),
    ensures
        field_seqs(r@) == split_whitespace_spec(cs@.skip(from as int)),
{
    let n = cs.len();
    let mut out: Vec<Vec<char>> = Vec::new();
    let mut i: usize = from;
    proof {
        assert(field_seqs(out@) =~= Seq::<Seq<char>>::empty());
    }
    while i < n
        invariant
            from <= i <= n,
            n == cs@.len(),
            split_whitespace_spec(cs@.skip(from as int)) == field_seqs(out@)
                + split_whitespace_spec(cs@.skip(i as int)),
        decreases n - i,
    {
        let ghost rest = cs@.skip(i as int);
        proof {
            assert(rest[0] == cs@[i as int]);
        }
        if is_whitespace_char(cs[i]) {
            proof {
                assert(rest.skip(1) =~= cs@.skip(i + 1));
            }
            i = i + 1;
        } else {
            let mut j: usize = i;
            while j < n && !is_whitespace_char(cs[j])
                invariant
                    i <= j <= n,
                    n == cs@.len(),
                    rest == cs@.skip(i as int),
                    token_len(rest) == (j - i) + token_len(cs@.skip(j as int)),
                decreases n - j,
            {
                proof {
                    assert(cs@.skip(j as int)[0] == cs@[j as int]);
                    assert(cs@.skip(j as int).skip(1) =~= cs@.skip(j + 1));
                }
                j = j + 1;
            }
            proof {
                if j < n {
                    assert(cs@.skip(j as int)[0] == cs@[j as int]);
                }
                assert(token_len(rest) == j - i);
                lemma_token_len_bound(rest);
            }
            let token = cs_slice(cs, i, j);
            let ghost before = out@;
            out.push(token);
            proof {
                assert(field_seqs(out@) =~= field_seqs(before).push(token@));
                assert(rest.take((j - i) as int) =~= token@);
                assert(rest.skip((j - i) as int) =~= cs@.skip(j as int));
                assert(seq![token@] + split_whitespace_spec(cs@.skip(j as int)) == split_whitespace_spec(rest));
                assert(field_seqs(before).push(token@) + split_whitespace_spec(cs@.skip(j as int))
                    =~= field_seqs(before) + (seq![token@] + split_whitespace_spec(cs@.skip(j as int))));
            }
            i = j;
        }
    }
    proof {
        assert(cs@.skip(n as int) =~= Seq::<char>::empty());
        assert(field_seqs(out@) + Seq::<Seq<char>>::empty() =~= field_seqs(out@));
    }
    out
}

/// The characters `cs[from..to]` in a new vector.
pub fn cs_slice(cs: &Vec<char>, from: usize, to: usize) -> (r: Vec<char>)
    requires
        from <= to <= cs@.len(),
    ensures
        r@ == cs@.subrange(from as int, to as int),
{
    let mut out: Vec<char> = Vec::new();
    let mut i: usize = from;
    while i < to
        invariant
            from <= i <= to,
            to <= cs@.len(),
            out@ == cs@.subrange(from as int, i as int),
        decreases to - i,
    {
        out.push(cs[i]);
        i = i + 1;
        proof {
            assert(out@ =~= cs@.subrange(from as int, i as int));
        }
    }
    out
}

/// What `str::parse::<i32>` gives: a value for an optional sign followed by
/// one or more decimal digits whose value fits in `i32`, nothing otherwise.
#[verifier::opaque]
pub open spec fn parse_i32_spec(s: Seq<char>) -> Option<int> {
    if s.len() > 0 && s[0] == '-' {
        let d = s.skip(1);
        if d.len() > 0 && all_digits(d) && decimal_value(d) <= 2147483648 {
            Some(-(decimal_value(d) as int))
        } else {
            None
        }
    } else {
        let d = if s.len() > 0 && s[0] == '+' {
            s.skip(1)
        } else {
            s
        };
        if d.len() > 0 && all_digits(d) && decimal_value(d) <= 2147483647 {
            Some(decimal_value(d) as int)
        } else {
            None
        }
    }
}

/// Whether `cs[from..]` holds decimal digits only.
fn digits_from(cs: &Vec<char>, from: usize) -> (r: bool)
    requires
        from <= cs@.len(),
    ensures
        r == all_digits(cs@.skip(from as int)),
{
    let n = cs.len();
    let ghost d = cs@.skip(from as int);
    let mut i: usize = from;
    while i < n
        invariant
            from <= i <= n,
            n == cs@.len(),
            d == cs@.skip(from as int),
            forall|k: int| from <= k < i ==> is_digit(#[trigger] cs@[k]),
        decreases n - i,
    {
        if !('0' <= cs[i] && cs[i] <= '9') {
            proof {
                assert(d[i - from] == cs@[i as int]);
            }
            return false;
        }
        i = i + 1;
    }
    proof {
        assert forall|k: int| 0 <= k < d.len() implies is_digit(#[trigger] d[k]) by {
            assert(d[k] == cs@[from + k]);
        }
    }
    true
}

/// Parses `cs` as `str::parse::<i32>` does.
pub fn parse_i32_chars(cs: &Vec<char>) -> (r: Option<i32>)
    ensures
        r matches Some(x) ==> parse_i32_spec(cs@) == Some(x as int),
        r is None ==> parse_i32_spec(cs@) is None,
{
    reveal(parse_i32_spec);
    let n = cs.len();
    let negative = n > 0 && cs[0] == '-';
    let start: usize = if n > 0 && (cs[0] == '-' || cs[0] == '+') {
        1
    } else {
        0
    };
    let ghost d = cs@.skip(start as int);
    proof {
        if start == 0 {
            assert(d =~= cs@);
        }
        assert(d == (if cs@.len() > 0 && cs@[0] == '-' {
            cs@.skip(1)
        } else if cs@.len() > 0 && cs@[0] == '+' {
            cs@.skip(1)
        } else {
            cs@
        }));
    }
    if start == n {
        return None;
    }
    if !digits_from(cs, start) {
        proof {
            reveal(parse_i32_spec);
        }
        return None;
    }
    let limit: u64 = if negative {
        2147483648
    } else {
        2147483647
    };
    let mut value: u64 = 0;
    let mut j: usize = start;
    while j < n
        invariant
            start <= j <= n,
            start < n,
            n == cs@.len(),
            d == cs@.skip(start as int),
            negative == (cs@.len() > 0 && cs@[0] == '-'),
            d == (if cs@.len() > 0 && cs@[0] == '-' {
                cs@.skip(1)
            } else if cs@.len() > 0 && cs@[0] == '+' {
                cs@.skip(1)
            } else {
                cs@
            }),
            limit == (if negative {
                2147483648u64
            } else {
                2147483647u64
            }),
            all_digits(d),
            value <= limit,
            limit <= 2147483648,
            value == decimal_value(d.subrange(0, j - start)),
        decreases n - j,
    {
        proof {
            assert(d[j - start] == cs@[j as int]);
            assert(d.subrange(0, j + 1 - start).drop_last() =~= d.subrange(0, j - start));
        }
        let digit = (cs[j] as u32 - '0' as u32) as u64;
        let next = value * 10 + digit;
        if next > limit {
            proof {
                reveal(parse_i32_spec);
                lemma_decimal_value_monotone(d, j + 1 - start);
            }
            return None;
        }
        value = next;
        j = j + 1;
    }
    proof {
        assert(d.subrange(0, n - start) =~= d);
    }
    if negative {
        if value == 2147483648 {
            Some(-2147483648i32)
        } else {
            Some(-(value as i32))
        }
    } else {
        Some(value as i32)
    }
}

/// Errors of the foreground command lookup.
#[derive(Debug)]
pub enum ForegroundError {
    Ioctl(std::io::Error),
    ReadProc(std::io::Error),
}

/// The parts of a `/proc/PID/stat` line that the foreground lookup reads.
#[derive(Debug, Clone, PartialEq, Eq)]
pub struct ProcStat {
    pub comm: String,
    pub pgrp: i32,
}

/// Position of the first `c` in `s`, if any.
#[verifier::opaque]
pub open spec fn first_index_of(s: Seq<char>, c: char) -> Option<int> {
    if exists|i: int| 0 <= i < s.len() && s[i] == c {
        Some(choose|i: int| 0 <= i < s.len() && s[i] == c && forall|k: int| 0 <= k < i ==> s[k] != c)
    } else {
        None
    }
}

/// Position of the last `c` in `s`, if any.
#[verifier::opaque]
pub open spec fn last_index_of(s: Seq<char>, c: char) -> Option<int> {
    if exists|i: int| 0 <= i < s.len() && s[i] == c {
        Some(choose|i: int| 0 <= i < s.len() && s[i] == c && forall|k: int| i < k < s.len() ==> s[k] != c)
    } else {
        None
    }
}

/// What `parse_stat` reads from a stat line: the command name between the
/// first `(` and the last `)`, and the third field after the `)` (the
/// process group) as an `i32`.
pub open spec fn parse_stat_spec(s: Seq<char>) -> Option<(Seq<char>, int)> {
    match (first_index_of(s, '('), last_index_of(s, ')')) {
        (Some(left), Some(right)) => if right <= left {
            None
        } else {
            let fields = split_whitespace_spec(s.skip(right + 1));
            if fields.len() < 3 {
                None
            } else {
                match parse_i32_spec(fields[2]) {
                    Some(p) => Some((s.subrange(left + 1, right), p)),
                    None => None,
                }
            }
        },
        _ => None,
    }
}

fn find_first(cs: &Vec<char>, c: char) -> (r: Option<usize>)
    ensures
        r matches Some(i) ==> first_index_of(cs@, c) == Some(i as int),
        r is None ==> first_index_of(cs@, c) is None,
        r matches Some(i) ==> i < cs@.len() && cs@[i as int] == c,
{
    reveal(first_index_of);
    let n = cs.len();
    let mut i: usize = 0;
    while i < n
        invariant
            i <= n,
            n == cs@.len(),
            forall|k: int| 0 <= k < i ==> cs@[k] != c,
        decreases n - i,
    {
        if cs[i] == c {
            proof {
                reveal(first_index_of);
                let w = choose|w: int| 0 <= w < cs@.len() && cs@[w] == c && forall|k: int| 0 <= k < w ==> cs@[k] != c;
                assert(0 <= i < cs@.len() && cs@[i as int] == c && forall|k: int| 0 <= k < i ==> cs@[k] != c);
                if w < i {
                    assert(cs@[w] != c);
                }
                if w > i {
                    assert(cs@[i as int] != c);
                }
            }
            return Some(i);
        }
        i = i + 1;
    }
    None
}

fn find_last(cs: &Vec<char>, c: char) -> (r: Option<usize>)
    ensures
        r matches Some(i) ==> last_index_of(cs@, c) == Some(i as int),
        r is None ==> last_index_of(cs@, c) is None,
        r matches Some(i) ==> i < cs@.len() && cs@[i as int] == c,
{
    reveal(last_index_of);
    let n = cs.len();
    let mut i: usize = n;
    while i > 0
        invariant
            i <= n,
            n == cs@.len(),
            forall|k: int| i <= k < n ==> cs@[k] != c,
        decreases i,
    {
        if cs[i - 1] == c {
            proof {
                reveal(last_index_of);
                let j = (i - 1) as int;
                let w = choose|w: int| 0 <= w < cs@.len() && cs@[w] == c && forall|k: int| w < k < cs@.len() ==> cs@[k] != c;
                assert(0 <= j < cs@.len() && cs@[j] == c && forall|k: int| j < k < cs@.len() ==> cs@[k] != c);
                if w < j {
                    assert(cs@[j] != c);
                }
                if w > j {
                    assert(cs@[w] != c);
                }
            }
            return Some(i - 1);
        }
        i = i - 1;
    }
    None
}

/// Reads the command name and process group from a `/proc/PID/stat` line.
/// The name is taken between the first `(` and the last `)`, so names that
/// hold spaces or parentheses are kept whole.
pub fn parse_stat(stat: &str) -> (r: Option<ProcStat>)
    ensures
        match parse_stat_spec(stat@) {
            Some((comm, pgrp)) => r matches Some(p) && p.comm@ == comm && p.pgrp == pgrp,
            None => r is None,
        },
{
    let cs = chars_of(stat);
    let left = match find_first(&cs, '(') {
        Some(l) => l,
        None => {
            return None;
        },
    };
    let right = match find_last(&cs, ')') {
        Some(r) => r,
        None => {
            return None;
        },
    };
    if right <= left {
        return None;
    }
    let n = cs.len();
    proof {
        assert(right < n);
    }
    let comm = string_from_chars(&cs, left + 1, right);
    let fields = split_whitespace_chars(&cs, right + 1);
    if fields.len() < 3 {
        proof {
            assert(field_seqs(fields@).len() == fields@.len());
        }
        return None;
    }
    proof {
        assert(field_seqs(fields@)[2] == fields@[2]@);
    }
    let pgrp = match parse_i32_chars(&fields[2]) {
        Some(p) => p,
        None => {
            return None;
        },
    };
    Some(ProcStat { comm, pgrp })
}

/// Length of the argument at the start of a NUL-separated command line.
pub open spec fn arg_len(b: Seq<u8>) -> nat
    decreases b.len(),
{
    if b.len() == 0 || b[0] == 0 {
        0
    } else {
        1 + arg_len(b.skip(1))
    }
}

pub proof fn lemma_arg_len_bound(b: Seq<u8>)
    ensures
        arg_len(b) <= b.len(),
        b.len() > 0 && b[0] != 0 ==> arg_len(b) >= 1,
    decreases b.len(),
{
    if b.len() > 0 && b[0] != 0 {
        lemma_arg_len_bound(b.skip(1));
    }
}

/// The non-empty NUL-separated arguments of a `/proc/PID/cmdline` file.
pub open spec fn cmdline_args(b: Seq<u8>) -> Seq<Seq<u8>>
    decreases b.len(),
{
    if b.len() == 0 {
        Seq::empty()
    } else if b[0] == 0 {
        cmdline_args(b.skip(1))
    } else {
        proof {
            lemma_arg_len_bound(b);
        }
        seq![b.take(arg_len(b) as int)] + cmdline_args(b.skip(arg_len(b) as int))
    }
}

/// `s` with carriage returns, line feeds and tabs turned into spaces.
pub open spec fn flatten_line_breaks(s: Seq<char>) -> Seq<char> {
    s.map_values(|c: char| if c == '\r' || c == '\n' || c == '\t' {
        ' '
    } else {
        c
    })
}

/// `parts` joined with single spaces.
pub open spec fn join_with_spaces(parts: Seq<Seq<char>>) -> Seq<char>
    decreases parts.len(),
{
    if parts.len() == 0 {
        Seq::empty()
    } else if parts.len() == 1 {
        parts[0]
    } else {
        join_with_spaces(parts.drop_last()) + seq![' '] + parts.last()
    }
}

/// The command shown for a process: its arguments, each decoded leniently
/// with line breaks and tabs flattened to spaces, joined by spaces; `comm`
/// when the command line holds no argument.
pub open spec fn command_text(cmdline: Seq<u8>, comm: Seq<char>) -> Seq<char> {
    let args = cmdline_args(cmdline);
    if args.len() == 0 {
        comm
    } else {
        join_with_spaces(args.map_values(|a: Seq<u8>| flatten_line_breaks(lossy_utf8(a))))
    }
}

/// Flattening keeps every character in place but turns carriage returns,
/// line feeds and tabs into spaces.
pub proof fn lemma_flatten_line_breaks(s: Seq<char>)
    ensures
        flatten_line_breaks(s).len() == s.len(),
        forall|i: int|
            0 <= i < s.len() ==> #[trigger] flatten_line_breaks(s)[i] == (if s[i] == '\r' || s[i]
                == '\n' || s[i] == '\t' {
                ' '
            } else {
                s[i]
            }),
{
}

/// The contents of a command-line file that holds `args`, each followed by a NUL.
pub open spec fn nul_terminated(args: Seq<Seq<u8>>) -> Seq<u8>
    decreases args.len(),
{
    if args.len() == 0 {
        Seq::empty()
    } else {
        nul_terminated(args.drop_last()) + args.last() + seq![0u8]
    }
}

/// An argument that ends at the first NUL of `x + t` ends in `x` when `x`
/// ends with a NUL.
proof fn lemma_arg_len_before_nul(x: Seq<u8>, t: Seq<u8>)
    requires
        x.len() > 0,
        x.last() == 0,
    ensures
        arg_len(x + t) == arg_len(x),
        arg_len(x) < x.len(),
    decreases x.len(),
{
    if x[0] != 0 {
        assert((x + t).skip(1) =~= x.skip(1) + t);
        lemma_arg_len_before_nul(x.skip(1), t);
    }
}

/// An argument without NUL followed by a NUL, or by nothing, is read whole.
proof fn lemma_arg_len_of_plain(a: Seq<u8>, t: Seq<u8>)
    requires
        forall|j: int| 0 <= j < a.len() ==> a[j] != 0,
        t.len() == 0 || t[0] == 0,
    ensures
        arg_len(a + t) == a.len(),
    decreases a.len(),
{
    if a.len() > 0 {
        assert((a + t).skip(1) =~= a.skip(1) + t);
        lemma_arg_len_of_plain(a.skip(1), t);
    } else {
        assert(a + t =~= t);
    }
}

/// The arguments of a command line that ends with a NUL, followed by more
/// bytes, are its own arguments followed by those of the bytes after it.
proof fn lemma_cmdline_args_concat(x: Seq<u8>, t: Seq<u8>)
    requires
        x.len() == 0 || x.last() == 0,
    ensures
        cmdline_args(x + t) == cmdline_args(x) + cmdline_args(t),
    decreases x.len(),
{
    let xt = x + t;
    if x.len() == 0 {
        assert(xt =~= t);
        assert(cmdline_args(x) + cmdline_args(t) =~= cmdline_args(t));
    } else if x[0] == 0 {
        assert(xt.skip(1) =~= x.skip(1) + t);
        lemma_cmdline_args_concat(x.skip(1), t);
    } else {
        lemma_arg_len_before_nul(x, t);
        let k = arg_len(x) as int;
        lemma_arg_len_bound(x);
        assert(xt.take(k) =~= x.take(k));
        assert(xt.skip(k) =~= x.skip(k) + t);
        lemma_cmdline_args_concat(x.skip(k), t);
        vstd::seq_lib::lemma_concat_associative(
            seq![x.take(k)],
            cmdline_args(x.skip(k)),
            cmdline_args(t),
        );
    }
}

/// A command-line file written from arguments that are not empty and hold
/// no NUL gives those arguments back.
proof fn lemma_cmdline_args_of_nul_terminated(args: Seq<Seq<u8>>)
    requires
        forall|i: int, j: int|
            0 <= i < args.len() && 0 <= j < args[i].len() ==> #[trigger] args[i][j] != 0,
        forall|i: int| 0 <= i < args.len() ==> #[trigger] args[i].len() > 0,
    ensures
        cmdline_args(nul_terminated(args)) == args,
        nul_terminated(args).len() == 0 || nul_terminated(args).last() == 0,
    decreases args.len(),
{
    if args.len() > 0 {
        let init = args.drop_last();
        let a = args.last();
        assert(forall|j: int| 0 <= j < a.len() ==> a[j] == args[args.len() - 1][j]);
        lemma_cmdline_args_of_nul_terminated(init);
        let x = nul_terminated(init);
        let t = a + seq![0u8];
        assert(nul_terminated(args) =~= x + t);
        lemma_cmdline_args_concat(x, t);
        lemma_arg_len_of_plain(a, seq![0u8]);
        assert(t.take(a.len() as int) =~= a);
        assert(t.skip(a.len() as int) =~= seq![0u8]);
        let nul = seq![0u8];
        assert(nul[0] == 0);
        assert(nul.skip(1) =~= Seq::<u8>::empty());
        assert(cmdline_args(nul) == cmdline_args(nul.skip(1)));
        assert(cmdline_args(Seq::<u8>::empty()) =~= Seq::<Seq<u8>>::empty());
        assert(cmdline_args(t) =~= seq![a]);
        assert(init + seq![a] =~= args);
    }
}

/// A command line of NUL bytes alone holds no argument.
proof fn lemma_no_arguments(cmdline: Seq<u8>)
    requires
        forall|i: int| 0 <= i < cmdline.len() ==> #[trigger] cmdline[i] == 0,
    ensures
        cmdline_args(cmdline).len() == 0,
    decreases cmdline.len(),
{
    if cmdline.len() > 0 {
        let rest = cmdline.skip(1);
        assert forall|i: int| 0 <= i < rest.len() implies #[trigger] rest[i] == 0 by {
            assert(rest[i] == cmdline[i + 1]);
        }
        lemma_no_arguments(rest);
    }
}

/// A process whose command line holds no argument (an empty file, or NUL
/// bytes alone, as for kernel threads) is shown by its name.
pub proof fn lemma_command_without_arguments_is_name(cmdline: Seq<u8>, comm: Seq<char>)
    requires
        forall|i: int| 0 <= i < cmdline.len() ==> #[trigger] cmdline[i] == 0,
    ensures
        command_text(cmdline, comm) == comm,
{
    lemma_no_arguments(cmdline);
}

/// A command line with a byte other than NUL holds an argument.
proof fn lemma_some_argument(b: Seq<u8>)
    requires
        exists|i: int| 0 <= i < b.len() && b[i] != 0,
    ensures
        cmdline_args(b).len() > 0,
    decreases b.len(),
{
    if b[0] == 0 {
        let i = choose|i: int| 0 <= i < b.len() && b[i] != 0;
        let rest = b.skip(1);
        assert(rest[i - 1] != 0);
        lemma_some_argument(rest);
    } else {
        lemma_arg_len_bound(b);
    }
}

/// Whatever comes before it (empty arguments included) and whether or not a
/// final NUL ends the file, the last argument of a command line is shown
/// last: alone when no argument comes before it, otherwise after what the
/// earlier arguments show and a space.
pub proof fn lemma_command_appends_last_argument(
    before: Seq<u8>,
    a: Seq<u8>,
    end: Seq<u8>,
    comm: Seq<char>,
)
    requires
        before.len() == 0 || before.last() == 0,
        a.len() > 0,
        forall|j: int| 0 <= j < a.len() ==> #[trigger] a[j] != 0,
        forall|j: int| 0 <= j < end.len() ==> #[trigger] end[j] == 0,
    ensures
        (forall|i: int| 0 <= i < before.len() ==> #[trigger] before[i] == 0) ==> command_text(
            before + a + end,
            comm,
        ) == flatten_line_breaks(lossy_utf8(a)),
        (exists|i: int| 0 <= i < before.len() && #[trigger] before[i] != 0) ==> command_text(
            before + a + end,
            comm,
        ) == command_text(before, comm) + seq![' '] + flatten_line_breaks(lossy_utf8(a)),
{
    let tail = a + end;
    assert(before + a + end =~= before + tail);
    lemma_cmdline_args_concat(before, tail);
    lemma_arg_len_of_plain(a, end);
    assert(tail[0] == a[0]);
    assert(tail.take(a.len() as int) =~= a);
    assert(tail.skip(a.len() as int) =~= end);
    lemma_no_arguments(end);
    assert(cmdline_args(tail) =~= seq![a]);
    let f = |x: Seq<u8>| flatten_line_breaks(lossy_utf8(x));
    let args = cmdline_args(before) + seq![a];
    let parts = args.map_values(f);
    if forall|i: int| 0 <= i < before.len() ==> #[trigger] before[i] == 0 {
        lemma_no_arguments(before);
        assert(args =~= seq![a]);
        assert(parts.len() == 1);
        assert(parts[0] == f(a));
    }
    if exists|i: int| 0 <= i < before.len() && #[trigger] before[i] != 0 {
        lemma_some_argument(before);
        assert(args.drop_last() =~= cmdline_args(before));
        assert(parts.drop_last() =~= cmdline_args(before).map_values(f));
        assert(parts.last() == f(a));
    }
}

/// The command shown for a process lists every argument of its command
/// line, in order, however many there are: a single argument is shown alone
/// (decoded leniently, line breaks flattened), and each further argument adds
/// a space and that argument to what is shown.
pub proof fn lemma_command_lists_every_argument(args: Seq<Seq<u8>>, a: Seq<u8>, comm: Seq<char>)
    requires
        forall|i: int, j: int|
            0 <= i < args.len() && 0 <= j < args[i].len() ==> #[trigger] args[i][j] != 0,
        forall|i: int| 0 <= i < args.len() ==> #[trigger] args[i].len() > 0,
        forall|j: int| 0 <= j < a.len() ==> #[trigger] a[j] != 0,
        a.len() > 0,
    ensures
        args.len() == 0 ==> command_text(nul_terminated(args.push(a)), comm)
            == flatten_line_breaks(lossy_utf8(a)),
        args.len() > 0 ==> command_text(nul_terminated(args.push(a)), comm) == command_text(
            nul_terminated(args),
            comm,
        ) + seq![' '] + flatten_line_breaks(lossy_utf8(a)),
{
    let all = args.push(a);
    assert forall|i: int, j: int|
        0 <= i < all.len() && 0 <= j < all[i].len() implies #[trigger] all[i][j] != 0 by {
        if i < args.len() {
            assert(all[i] == args[i]);
        }
    }
    assert forall|i: int| 0 <= i < all.len() implies #[trigger] all[i].len() > 0 by {
        if i < args.len() {
            assert(all[i] == args[i]);
        }
    }
    lemma_cmdline_args_of_nul_terminated(all);
    lemma_cmdline_args_of_nul_terminated(args);
    let f = |x: Seq<u8>| flatten_line_breaks(lossy_utf8(x));
    let parts = all.map_values(f);
    assert(parts.drop_last() =~= args.map_values(f));
    assert(parts.last() == f(a));
    if args.len() == 0 {
        assert(parts.len() == 1);
    }
}

fn flattened_string(s: &String) -> (r: String)
    ensures
        r@ == flatten_line_breaks(s@),
{
    let cs = chars_of(s.as_str());
    let mut out = String::new();
    let n = cs.len();
    let mut i: usize = 0;
    while i < n
        invariant
            i <= n,
            n == cs@.len(),
            cs@ == s@,
            out@ == flatten_line_breaks(s@.subrange(0, i as int)),
        decreases n - i,
    {
        let c = cs[i];
        if c == '\r' || c == '\n' || c == '\t' {
            push_char(&mut out, ' ');
        } else {
            push_char(&mut out, c);
        }
        i = i + 1;
        proof {
            assert(out@ =~= flatten_line_breaks(s@.subrange(0, i as int)));
        }
    }
    proof {
        assert(s@.subrange(0, n as int) =~= s@);
    }
    out
}

/// The command shown for a process, from the contents of its
/// `/proc/PID/cmdline` and its name from `/proc/PID/stat`.
pub fn command_from_cmdline(cmdline: &[u8], comm: &str) -> (r: String)
    ensures
        r@ == command_text(cmdline@, comm@),
{
    let ghost parts_of = |a: Seq<u8>| flatten_line_breaks(lossy_utf8(a));
    let n = cmdline.len();
    let mut out = String::new();
    let mut count: usize = 0;
    let mut i: usize = 0;
    let ghost mut seen: Seq<Seq<u8>> = Seq::empty();
    proof {
        assert(cmdline@.skip(0) =~= cmdline@);
        assert(seen + cmdline_args(cmdline@) =~= cmdline_args(cmdline@));
        assert(seen.map_values(parts_of) =~= Seq::<Seq<char>>::empty());
    }
    while i < n
        invariant
            i <= n,
            n == cmdline@.len(),
            cmdline_args(cmdline@) == seen + cmdline_args(cmdline@.skip(i as int)),
            count == seen.len(),
            count <= i,
            out@ == join_with_spaces(seen.map_values(parts_of)),
            parts_of == (|a: Seq<u8>| flatten_line_breaks(lossy_utf8(a))),
        decreases n - i,
    {
        let ghost rest = cmdline@.skip(i as int);
        proof {
            assert(rest[0] == cmdline@[i as int]);
        }
        if cmdline[i] == 0 {
            proof {
                assert(rest.skip(1) =~= cmdline@.skip(i + 1));
            }
            i = i + 1;
        } else {
            let mut j: usize = i;
            while j < n && cmdline[j] != 0
                invariant
                    i <= j <= n,
                    n == cmdline@.len(),
                    rest == cmdline@.skip(i as int),
                    arg_len(rest) == (j - i) + arg_len(cmdline@.skip(j as int)),
                decreases n - j,
            {
                proof {
                    assert(cmdline@.skip(j as int)[0] == cmdline@[j as int]);
                    assert(cmdline@.skip(j as int).skip(1) =~= cmdline@.skip(j + 1));
                }
                j = j + 1;
            }
            proof {
                if j < n {
                    assert(cmdline@.skip(j as int)[0] == cmdline@[j as int]);
                }
                assert(arg_len(rest) == j - i);
                lemma_arg_len_bound(rest);
            }
            let arg = copy_range(cmdline, i, j);
            let decoded = lossy_string(arg.as_slice());
            let part = flattened_string(&decoded);
            let ghost before = seen;
            if count > 0 {
                push_char(&mut out, ' ');
            }
            out.append(part.as_str());
            proof {
                seen = seen.push(arg@);
                assert(rest.take((j - i) as int) =~= arg@);
                assert(rest.skip((j - i) as int) =~= cmdline@.skip(j as int));
                assert(seen.map_values(parts_of).drop_last() =~= before.map_values(parts_of));
                assert(seen.map_values(parts_of).last() == part@);
                assert(before + cmdline_args(rest) =~= seen + cmdline_args(cmdline@.skip(j as int)));
                if count == 0 {
                    assert(before.len() == 0);
                    assert(out@ =~= join_with_spaces(seen.map_values(parts_of)));
                } else {
                    assert(out@ =~= join_with_spaces(seen.map_values(parts_of)));
                }
            }
            count = count + 1;
            i = j;
        }
    }
    proof {
        assert(cmdline@.skip(n as int) =~= Seq::<u8>::empty());
        assert(seen + Seq::<Seq<u8>>::empty() =~= seen);
    }
    if count == 0 {
        return comm.to_owned();
    }
    out
}

/// Which process group member's command to show: the group leader's when it
/// is seen, otherwise the first member seen.
pub struct GroupCommandSearch {
    pgrp: i32,
    fallback: Option<String>,
}

impl GroupCommandSearch {
    pub closed spec fn pgrp(&self) -> i32 {
        self.pgrp
    }

    pub closed spec fn fallback(&self) -> Option<Seq<char>> {
        match self.fallback {
            Some(s) => Some(s@),
            None => None,
        }
    }

    pub fn new(pgrp: i32) -> (r: GroupCommandSearch)
        ensures
            r.pgrp() == pgrp,
            r.fallback() is None,
    {
        GroupCommandSearch { pgrp, fallback: None }
    }

    /// Whether a process in process group `pgrp` belongs to the group searched.
    pub fn is_member(&self, pgrp: i32) -> (r: bool)
        ensures
            r == (pgrp == self.pgrp()),
    {
        pgrp == self.pgrp
    }

    /// Offers the command of a member `pid` of the group. The leader's command
    /// is the answer at once; another member's is kept if it is the first.
    pub fn offer(&mut self, pid: i32, command: String) -> (r: Option<String>)
        ensures
            final(self).pgrp() == old(self).pgrp(),
            pid == old(self).pgrp() ==> {
                &&& r matches Some(c)
                &&& c@ == command@
            },
            pid != old(self).pgrp() ==> r is None,
            pid != old(self).pgrp() && old(self).fallback() is None ==> final(self).fallback()
                == Some(command@),
            pid == old(self).pgrp() || old(self).fallback() is Some ==> final(self).fallback()
                == old(self).fallback(),
    {
        if pid == self.pgrp {
            return Some(command);
        }
        if self.fallback.is_none() {
            self.fallback = Some(command);
        }
        None
    }

    /// The answer when the leader was not seen: the first member's command.
    pub fn finish(self) -> (r: Option<String>)
        ensures
            match r {
                Some(c) => self.fallback() == Some(c@),
                None => self.fallback() is None,
            },
    {
        self.fallback
    }
}

/// Reads a `/proc` entry name as a process id (`str::parse::<i32>`).
pub fn parse_pid_name(name: &str) -> (r: Option<i32>)
    ensures
        r matches Some(x) ==> parse_i32_spec(name@) == Some(x as int),
        r is None ==> parse_i32_spec(name@) is None,
{
    let cs = chars_of(name);
    parse_i32_chars(&cs)
}

} // verus!
