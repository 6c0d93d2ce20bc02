//! The line-oriented command grammar: one referee line parsed into one
//! command, whitespace-separated, with decimal arguments.

use vstd::prelude::*;
use vstd::string::StrSliceExecFns;
use vstd::string::StringExecFns;

verus! {

/// One parsed referee line.
#[derive(Debug, PartialEq, Clone)]
pub enum Command {
    Start(usize),
    Turn(usize, usize),
    Begin,
    Board,
    Info(String, String),
    End,
    About,
    Restart,
    Error(String),
    Unknown(String),
}

/// The whitespace the tokenizer splits on.
pub open spec fn is_ws(c: char) -> bool {
    c == ' ' || c == '\t' || c == '\r' || c == '\n'
}

/// The tokens of `s` from position `i` on, `cur` being the partial
/// token read so far: maximal runs of non-whitespace characters.
pub open spec fn tokens_acc(s: Seq<char>, i: int, cur: Seq<char>) -> Seq<Seq<char>>
    decreases s.len() - i,
{
    if i < 0 || i >= s.len() {
        if cur.len() == 0 {
            Seq::empty()
        } else {
            seq![cur]
        }
    } else if is_ws(s[i]) {
        if cur.len() == 0 {
            tokens_acc(s, i + 1, Seq::empty())
        } else {
            seq![cur] + tokens_acc(s, i + 1, Seq::empty())
        }
    } else {
        tokens_acc(s, i + 1, cur.push(s[i]))
    }
}

/// The whitespace-separated tokens of `s`.
pub open spec fn tokens_of(s: Seq<char>) -> Seq<Seq<char>> {
    tokens_acc(s, 0, Seq::empty())
}

/// A decimal digit.
pub open spec fn is_digit(c: char) -> bool {
    48 <= c as int <= 57
}

/// Value of a digit string, most significant first.
pub open spec fn digits_val(s: Seq<char>) -> nat
    decreases s.len(),
{
    if s.len() == 0 {
        0
    } else {
        digits_val(s.drop_last()) * 10 + (s.last() as int - 48) as nat
    }
}

/// A well-formed decimal number that fits the machine word.
pub open spec fn num_ok(s: Seq<char>) -> bool {
    s.len() > 0 && (forall|j: int| 0 <= j < s.len() ==> is_digit(s[j])) && digits_val(s)
        <= usize::MAX
}

/// Index of the first comma at or after `i`, or the length.
pub open spec fn comma_from(s: Seq<char>, i: int) -> int
    decreases s.len() - i,
{
    if i < 0 || i >= s.len() {
        s.len() as int
    } else if s[i] == ',' {
        i
    } else {
        comma_from(s, i + 1)
    }
}

/// A well-formed coordinate pair: exactly one comma with a number on
/// each side.
pub open spec fn coords_ok(s: Seq<char>) -> bool {
    let k = comma_from(s, 0);
    &&& k < s.len()
    &&& comma_from(s, k + 1) == s.len()
    &&& num_ok(s.subrange(0, k))
    &&& num_ok(s.subrange(k + 1, s.len() as int))
}

/// The first coordinate of a well-formed pair.
pub open spec fn coord_x(s: Seq<char>) -> nat {
    digits_val(s.subrange(0, comma_from(s, 0)))
}

/// The second coordinate of a well-formed pair.
pub open spec fn coord_y(s: Seq<char>) -> nat {
    digits_val(s.subrange(comma_from(s, 0) + 1, s.len() as int))
}

/// What `parse_line` answers for a line with tokens `toks`.
pub open spec fn parse_spec(toks: Seq<Seq<char>>, r: Command) -> bool {
    if toks.len() == 0 {
        r matches Command::Unknown(m) && m@ == Seq::<char>::empty()
    } else if toks[0] == "START"@ {
        if toks.len() >= 2 {
            if num_ok(toks[1]) {
                r matches Command::Start(v) && v == digits_val(toks[1])
            } else {
                r matches Command::Error(m) && m@ == "Invalid size for START: "@ + toks[1]
            }
        } else {
            r matches Command::Error(m) && m@ == "Missing size for START"@
        }
    } else if toks[0] == "TURN"@ {
        if toks.len() >= 2 {
            if coords_ok(toks[1]) {
                r matches Command::Turn(x, y) && x == coord_x(toks[1]) && y == coord_y(toks[1])
            } else {
                r matches Command::Error(m) && m@ == "Invalid coordinates for TURN: "@ + toks[1]
            }
        } else {
            r matches Command::Error(m) && m@ == "Missing coordinates for TURN"@
        }
    } else if toks[0] == "BEGIN"@ {
        r == Command::Begin
    } else if toks[0] == "BOARD"@ {
        r == Command::Board
    } else if toks[0] == "INFO"@ {
        if toks.len() >= 3 {
            r matches Command::Info(k, v) && k@ == toks[1] && v@ == toks[2]
        } else {
            r matches Command::Error(m) && m@ == "Missing arguments for INFO"@
        }
    } else if toks[0] == "END"@ {
        r == Command::End
    } else if toks[0] == "ABOUT"@ {
        r == Command::About
    } else if toks[0] == "RESTART"@ {
        r == Command::Restart
    } else {
        r matches Command::Unknown(m) && m@ == "Unknown command: "@ + toks[0]
    }
}

/// Bounds of the next token of `line` at or after `from`: `(n, n)`
/// when only whitespace remains, else the token's half-open range. The
/// token stream from `from` decomposes accordingly.
fn next_token(line: &str, from: usize) -> (r: (usize, usize))
    requires
        from <= line@.len(),
        line@.len() < usize::MAX,
    ensures
        from <= r.0 <= r.1 <= line@.len(),
        r.0 == r.1 ==> tokens_acc(line@, from as int, Seq::empty()) == Seq::<Seq<char>>::empty(),
        r.0 < r.1 ==> tokens_acc(line@, from as int, Seq::empty()) == seq![
            line@.subrange(r.0 as int, r.1 as int),
        ] + tokens_acc(line@, r.1 as int, Seq::empty()),
{
    let n = line.unicode_len();
    let mut i = from;
    while i < n
        invariant_except_break
            from <= i <= n,
            n == line@.len(),
            tokens_acc(line@, from as int, Seq::empty()) == tokens_acc(
                line@,
                i as int,
                Seq::empty(),
            ),
        ensures
            from <= i <= n,
            n == line@.len(),
            tokens_acc(line@, from as int, Seq::empty()) == tokens_acc(
                line@,
                i as int,
                Seq::empty(),
            ),
            i < n ==> !is_ws(line@[i as int]),
        decreases n - i,
    {
        let c = line.get_char(i);
        if !(c == ' ' || c == '\t' || c == '\r' || c == '\n') {
            break;
        }
        i += 1;
    }
    if i == n {
        return (n, n);
    }
    let start = i;
    proof {
        assert(line@.subrange(start as int, start as int) =~= Seq::<char>::empty());
    }
    while i < n
        invariant_except_break
            start <= i <= n,
            start < n,
            n == line@.len(),
            !is_ws(line@[start as int]),
            tokens_acc(line@, start as int, Seq::empty()) == tokens_acc(
                line@,
                i as int,
                line@.subrange(start as int, i as int),
            ),
        ensures
            start <= i <= n,
            n == line@.len(),
            tokens_acc(line@, start as int, Seq::empty()) == tokens_acc(
                line@,
                i as int,
                line@.subrange(start as int, i as int),
            ),
            i < n ==> is_ws(line@[i as int]),
            start < i,
        decreases n - i,
    {
        let c = line.get_char(i);
        if c == ' ' || c == '\t' || c == '\r' || c == '\n' {
            break;
        }
        proof {
            assert(line@.subrange(start as int, i as int).push(line@[i as int]) =~= line@.subrange(
                start as int,
                (i + 1) as int,
            ));
        }
        i += 1;
    }
    proof {
        let s = line@;
        let cur = s.subrange(start as int, i as int);
        assert(cur.len() > 0);
        if i < n {
            assert(tokens_acc(s, i as int, cur) == seq![cur] + tokens_acc(
                s,
                i as int + 1,
                Seq::empty(),
            ));
            assert(tokens_acc(s, i as int, Seq::empty()) == tokens_acc(
                s,
                i as int + 1,
                Seq::empty(),
            ));
        } else {
            assert(tokens_acc(s, i as int, cur) == seq![cur]);
            assert(tokens_acc(s, i as int, Seq::empty()) == Seq::<Seq<char>>::empty());
            assert(seq![cur] =~= seq![cur] + Seq::<Seq<char>>::empty());
        }
        assert(tokens_acc(s, from as int, Seq::empty()) == seq![cur] + tokens_acc(
            s,
            i as int,
            Seq::empty(),
        ));
    }
    (start, i)
}

proof fn lemma_digits_extend(s: Seq<char>, t: Seq<char>)
    requires
        t.len() >= 0,
    ensures
        digits_val(s + t) >= digits_val(s),
    decreases t.len(),
{
    if t.len() == 0 {
        assert(s + t =~= s);
    } else {
        lemma_digits_extend(s, t.drop_last());
        assert((s + t).drop_last() =~= s + t.drop_last());
        assert(digits_val(s + t) == digits_val(s + t.drop_last()) * 10 + ((s + t).last() as int
            - 48) as nat);
    }
}

/// Parses an unsigned decimal number; `None` on an empty string, a
/// non-digit, or overflow.
fn parse_usize(t: &str) -> (r: Option<usize>)
    ensures
        num_ok(t@) ==> r == Some((digits_val(t@) as usize)),
        !num_ok(t@) ==> r is None,
{
    let n = t.unicode_len();
    if n == 0 {
        return None;
    }
    let mut v: usize = 0;
    let mut i: usize = 0;
    while i < n
        invariant
            i <= n,
            n == t@.len(),
            v == digits_val(t@.subrange(0, i as int)),
            forall|j: int| 0 <= j < i ==> is_digit(t@[j]),
        decreases n - i,
    {
        let c = t.get_char(i);
        if !(c >= '0' && c <= '9') {
            assert(!is_digit(t@[i as int]));
            return None;
        }
        let d = (c as u32 - 48) as usize;
        if v > (usize::MAX - d) / 10 {
            proof {
                let pre = t@.subrange(0, (i + 1) as int);
                assert(pre.drop_last() =~= t@.subrange(0, i as int));
                assert(digits_val(pre) == v * 10 + d);
                assert(pre + t@.subrange((i + 1) as int, n as int) =~= t@);
                lemma_digits_extend(pre, t@.subrange((i + 1) as int, n as int));
                assert(digits_val(t@) > usize::MAX);
            }
            return None;
        }
        proof {
            let pre = t@.subrange(0, (i + 1) as int);
            assert(pre.drop_last() =~= t@.subrange(0, i as int));
            assert(digits_val(pre) == v * 10 + d);
        }
        v = v * 10 + d;
        i += 1;
    }
    proof {
        assert(t@.subrange(0, n as int) =~= t@);
    }
    Some(v)
}

/// Splits a `x,y` token; `Err` unless it is exactly one comma between
/// two numbers.
pub fn parse_coordinates(t: &str) -> (r: Result<(usize, usize), ()>)
    ensures
        coords_ok(t@) ==> r == Ok::<(usize, usize), ()>(
            ((coord_x(t@) as usize), (coord_y(t@) as usize)),
        ),
        !coords_ok(t@) ==> r is Err,
{
    let n = t.unicode_len();
    let mut i: usize = 0;
    while i < n
        invariant_except_break
            i <= n,
            n == t@.len(),
            comma_from(t@, 0) == comma_from(t@, i as int),
        ensures
            i <= n,
            n == t@.len(),
            comma_from(t@, 0) == comma_from(t@, i as int),
            i < n ==> t@[i as int] == ',',
        decreases n - i,
    {
        let c = t.get_char(i);
        if c == ',' {
            break;
        }
        i += 1;
    }
    if i == n {
        return Err(());
    }
    let k = i;
    let mut j = k + 1;
    while j < n
        invariant_except_break
            k < j <= n,
            n == t@.len(),
            comma_from(t@, k as int + 1) == comma_from(t@, j as int),
        ensures
            k < j <= n,
            n == t@.len(),
            comma_from(t@, k as int + 1) == comma_from(t@, j as int),
            j < n ==> t@[j as int] == ',',
        decreases n - j,
    {
        let c = t.get_char(j);
        if c == ',' {
            break;
        }
        j += 1;
    }
    if j < n {
        return Err(());
    }
    let left = t.substring_char(0, k);
    let right = t.substring_char(k + 1, n);
    let x = match parse_usize(left) {
        Some(x) => x,
        None => {
            return Err(());
        },
    };
    let y = match parse_usize(right) {
        Some(y) => y,
        None => {
            return Err(());
        },
    };
    Ok((x, y))
}

/// Character-wise string equality.
fn str_eq(a: &str, b: &str) -> (r: bool)
    ensures
        r == (a@ == b@),
{
    let na = a.unicode_len();
    let nb = b.unicode_len();
    if na != nb {
        return false;
    }
    let mut i: usize = 0;
    while i < na
        invariant
            i <= na,
            na == a@.len(),
            na == b@.len(),
            forall|j: int| 0 <= j < i ==> a@[j] == b@[j],
        decreases na - i,
    {
        if a.get_char(i) != b.get_char(i) {
            return false;
        }
        i += 1;
    }
    proof {
        assert(a@ =~= b@);
    }
    true
}

/// Parses one referee line into a command; see [`parse_spec`].
pub fn parse_line(line: &str) -> (r: Command)
    requires
        line@.len() < usize::MAX,
    ensures
        parse_spec(tokens_of(line@), r),
{
    let n = line.unicode_len();
    let (t0s, t0e) = next_token(line, 0);
    if t0s == t0e {
        return Command::Unknown(String::new());
    }
    let command = line.substring_char(t0s, t0e);
    let ghost toks = tokens_of(line@);
    proof {
        assert(toks[0] == command@);
    }
    let (t1s, t1e) = next_token(line, t0e);
    let ghost rest1 = tokens_acc(line@, t0e as int, Seq::empty());

    if str_eq(command, "START") {
        if t1s == t1e {
            let mut m = "Missing size for START".to_owned();
            return Command::Error(m);
        }
        let arg = line.substring_char(t1s, t1e);
        proof {
            assert(toks[1] == arg@);
        }
        match parse_usize(arg) {
            Some(size) => Command::Start(size),
            None => {
                let mut m = "Invalid size for START: ".to_owned();
                m.append(arg);
                Command::Error(m)
            },
        }
    } else if str_eq(command, "TURN") {
        if t1s == t1e {
            let m = "Missing coordinates for TURN".to_owned();
            return Command::Error(m);
        }
        let arg = line.substring_char(t1s, t1e);
        proof {
            assert(toks[1] == arg@);
        }
        match parse_coordinates(arg) {
            Ok((x, y)) => Command::Turn(x, y),
            Err(()) => {
                let mut m = "Invalid coordinates for TURN: ".to_owned();
                m.append(arg);
                Command::Error(m)
            },
        }
    } else if str_eq(command, "BEGIN") {
        Command::Begin
    } else if str_eq(command, "BOARD") {
        Command::Board
    } else if str_eq(command, "INFO") {
        if t1s == t1e {
            return Command::Error("Missing arguments for INFO".to_owned());
        }
        let (t2s, t2e) = next_token(line, t1e);
        if t2s == t2e {
            return Command::Error("Missing arguments for INFO".to_owned());
        }
        let key = line.substring_char(t1s, t1e);
        let value = line.substring_char(t2s, t2e);
        proof {
            assert(toks[1] == key@);
            assert(toks[2] == value@);
        }
        Command::Info(key.to_owned(), value.to_owned())
    } else if str_eq(command, "END") {
        Command::End
    } else if str_eq(command, "ABOUT") {
        Command::About
    } else if str_eq(command, "RESTART") {
        Command::Restart
    } else {
        let mut m = "Unknown command: ".to_owned();
        m.append(command);
        Command::Unknown(m)
    }
}

} // verus!
