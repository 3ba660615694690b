//! The shared lexical core of the piece and board grammars: character
//! classes, maximal-run scanning, decimal values of digit runs, and
//! whitespace-separated fields of a line.

use vstd::prelude::*;

verus! {

/// Decimal digits `0` to `9`.
pub open spec fn is_digit(c: char) -> bool {
    48 <= (c as u32) <= 57
}

/// ASCII letters.
pub open spec fn is_letter(c: char) -> bool {
    (65 <= (c as u32) <= 90) || (97 <= (c as u32) <= 122)
}

/// Characters that continue a word once one has started: letters, `.`, `_`.
pub open spec fn is_word_char(c: char) -> bool {
    is_letter(c) || c == '.' || c == '_'
}

/// Whitespace that separates tokens without ending a line.
pub open spec fn is_blank(c: char) -> bool {
    c == ' ' || c == '\t' || c == '\r'
}

/// `_` stands for a literal space in word text; all other characters stand
/// for themselves.
pub open spec fn underscore_to_space(c: char) -> char {
    if c == '_' {
        ' '
    } else {
        c
    }
}

/// The numeric value of a digit character.
pub open spec fn digit_val(c: char) -> int {
    (c as u32) - 48
}

/// The first position at or after `i` that does not hold a digit.
pub open spec fn digit_run_end(s: Seq<char>, i: int) -> int
    decreases s.len() - i when 0 <= i <= s.len()
{
    if i < s.len() && is_digit(s[i]) {
        digit_run_end(s, i + 1)
    } else {
        i
    }
}

/// The first position at or after `i` that does not hold a word character.
pub open spec fn word_run_end(s: Seq<char>, i: int) -> int
    decreases s.len() - i when 0 <= i <= s.len()
{
    if i < s.len() && is_word_char(s[i]) {
        word_run_end(s, i + 1)
    } else {
        i
    }
}

/// The first position at or after `i` that does not hold a dash.
pub open spec fn dash_run_end(s: Seq<char>, i: int) -> int
    decreases s.len() - i when 0 <= i <= s.len()
{
    if i < s.len() && s[i] == '-' {
        dash_run_end(s, i + 1)
    } else {
        i
    }
}

/// The first position at or after `i` that holds blank space or exceeds the
/// line (used to delimit a whitespace-separated field).
pub open spec fn field_run_end(s: Seq<char>, i: int) -> int
    decreases s.len() - i when 0 <= i <= s.len()
{
    if i < s.len() && !is_blank(s[i]) {
        field_run_end(s, i + 1)
    } else {
        i
    }
}

pub proof fn lemma_digit_run_end(s: Seq<char>, i: int)
    requires
        0 <= i <= s.len(),
    ensures
        i <= digit_run_end(s, i) <= s.len(),
        forall|k: int| i <= k < digit_run_end(s, i) ==> is_digit(#[trigger] s[k]),
        digit_run_end(s, i) < s.len() ==> !is_digit(s[digit_run_end(s, i)]),
    decreases s.len() - i,
{
    if i < s.len() && is_digit(s[i]) {
        lemma_digit_run_end(s, i + 1);
    }
}

pub proof fn lemma_word_run_end(s: Seq<char>, i: int)
    requires
        0 <= i <= s.len(),
    ensures
        i <= word_run_end(s, i) <= s.len(),
        forall|k: int| i <= k < word_run_end(s, i) ==> is_word_char(#[trigger] s[k]),
        word_run_end(s, i) < s.len() ==> !is_word_char(s[word_run_end(s, i)]),
    decreases s.len() - i,
{
    if i < s.len() && is_word_char(s[i]) {
        lemma_word_run_end(s, i + 1);
    }
}

pub proof fn lemma_dash_run_end(s: Seq<char>, i: int)
    requires
        0 <= i <= s.len(),
    ensures
        i <= dash_run_end(s, i) <= s.len(),
        dash_run_end(s, i) < s.len() ==> s[dash_run_end(s, i)] != '-',
    decreases s.len() - i,
{
    if i < s.len() && s[i] == '-' {
        lemma_dash_run_end(s, i + 1);
    }
}

pub proof fn lemma_field_run_end(s: Seq<char>, i: int)
    requires
        0 <= i <= s.len(),
    ensures
        i <= field_run_end(s, i) <= s.len(),
        forall|k: int| i <= k < field_run_end(s, i) ==> !is_blank(#[trigger] s[k]),
        field_run_end(s, i) < s.len() ==> is_blank(s[field_run_end(s, i)]),
    decreases s.len() - i,
{
    if i < s.len() && !is_blank(s[i]) {
        lemma_field_run_end(s, i + 1);
    }
}

/// A run-end function is constant across the run it delimits: scanning from
/// any position inside the run reaches the same end.
pub proof fn lemma_digit_run_end_step(s: Seq<char>, i: int)
    requires
        0 <= i < s.len(),
        is_digit(s[i]),
    ensures
        digit_run_end(s, i) == digit_run_end(s, i + 1),
{
}

pub proof fn lemma_word_run_end_step(s: Seq<char>, i: int)
    requires
        0 <= i < s.len(),
        is_word_char(s[i]),
    ensures
        word_run_end(s, i) == word_run_end(s, i + 1),
{
}

/// The decimal value of the digit run `s[i..j)`, most significant digit
/// first.
pub open spec fn digits_val(s: Seq<char>, i: int, j: int) -> int
    decreases j - i when i <= j
{
    if i < j {
        digits_val(s, i, j - 1) * 10 + digit_val(s[j - 1])
    } else {
        0
    }
}

pub proof fn lemma_digits_val_nonneg(s: Seq<char>, i: int, j: int)
    requires
        i <= j,
        forall|k: int| i <= k < j ==> is_digit(#[trigger] s[k]),
    ensures
        digits_val(s, i, j) >= 0,
    decreases j - i,
{
    if i < j {
        lemma_digits_val_nonneg(s, i, j - 1);
    }
}

/// Extending a digit run never decreases its value.
pub proof fn lemma_digits_val_monotone(s: Seq<char>, i: int, j1: int, j2: int)
    requires
        i <= j1 <= j2,
        forall|k: int| i <= k < j2 ==> is_digit(#[trigger] s[k]),
    ensures
        digits_val(s, i, j1) <= digits_val(s, i, j2),
    decreases j2 - j1,
{
    if j1 < j2 {
        lemma_digits_val_monotone(s, i, j1, j2 - 1);
        lemma_digits_val_nonneg(s, i, j2 - 1);
    }
}

/// The whitespace-separated fields of `s[i..]`, in order.
pub open spec fn fields_from(s: Seq<char>, i: int) -> Seq<Seq<char>>
    decreases s.len() - i when 0 <= i <= s.len()
{
    if i >= s.len() {
        Seq::empty()
    } else if is_blank(s[i]) {
        fields_from(s, i + 1)
    } else {
        proof {
            lemma_field_run_end(s, i);
        }
        seq![s.subrange(i, field_run_end(s, i))] + fields_from(s, field_run_end(s, i))
    }
}

/// The fields of a whole line.
pub open spec fn spec_fields(s: Seq<char>) -> Seq<Seq<char>> {
    fields_from(s, 0)
}

/// `p` is a prefix of `s`.
pub open spec fn spec_starts_with(s: Seq<char>, p: Seq<char>) -> bool {
    s.len() >= p.len() && s.subrange(0, p.len() as int) == p
}

/// The character sequences of a list of strings.
pub open spec fn texts_view(ts: Seq<String>) -> Seq<Seq<char>> {
    ts.map_values(|s: String| s@)
}

/// A whitespace-separated field read as an unsigned number: defined for a
/// non-empty all-digit field whose value is at most `0x8000_0000`.
pub open spec fn field_u32(f: Seq<char>) -> Option<int> {
    if f.len() > 0 && (forall|k: int| 0 <= k < f.len() ==> is_digit(#[trigger] f[k]))
        && digits_val(f, 0, f.len() as int) <= 0x8000_0000 {
        Some(digits_val(f, 0, f.len() as int))
    } else {
        Option::None
    }
}

/// The fields from `i` on, joined by single spaces.
pub open spec fn join_fields(fs: Seq<Seq<char>>, i: int) -> Seq<char>
    decreases fs.len() - i when 0 <= i
{
    if i >= fs.len() {
        Seq::empty()
    } else if i == fs.len() - 1 {
        fs[i]
    } else {
        fs[i] + seq![' '] + join_fields(fs, i + 1)
    }
}

/// Relies on `String::push`: appends the given character to the end of the
/// string.
#[verifier::external_body]
pub fn push_char(s: &mut String, c: char)
    ensures
        final(s)@ == old(s)@.push(c),
{
    s.push(c);
}

pub fn exec_is_digit(c: char) -> (r: bool)
    ensures
        r == is_digit(c),
{
    let u = c as u32;
    48 <= u && u <= 57
}

pub fn exec_is_letter(c: char) -> (r: bool)
    ensures
        r == is_letter(c),
{
    let u = c as u32;
    (65 <= u && u <= 90) || (97 <= u && u <= 122)
}

pub fn exec_is_word_char(c: char) -> (r: bool)
    ensures
        r == is_word_char(c),
{
    exec_is_letter(c) || c == '.' || c == '_'
}

pub fn exec_is_blank(c: char) -> (r: bool)
    ensures
        r == is_blank(c),
{
    c == ' ' || c == '\t' || c == '\r'
}

/// Whether two string slices hold the same characters.
pub fn str_eq(a: &str, b: &str) -> (r: bool)
    ensures
        r == (a@ == b@),
{
    let a_string = a.to_owned();
    let b_string = b.to_owned();
    a_string == b_string
}

/// Scans the maximal digit run of `s` starting at `start` and accumulates its
/// decimal value. Returns the end of the run, the value, and an overflow
/// flag; the value is only meaningful when the flag is false, and the flag is
/// set exactly when the run's value exceeds `0x8000_0000` (the widest
/// magnitude a signed 32-bit offset can take).
pub fn scan_number(s: &str, start: usize) -> (r: (usize, u64, bool))
    requires
        start <= s@.len(),
    ensures
        r.0 == digit_run_end(s@, start as int),
        !r.2 ==> r.1 == digits_val(s@, start as int, r.0 as int) && r.1 <= 0x8000_0000,
        r.2 ==> digits_val(s@, start as int, r.0 as int) > 0x8000_0000,
{
    let ghost sq = s@;
    let n = s.unicode_len();
    let mut j: usize = start;
    let mut val: u64 = 0;
    let mut over: bool = false;
    proof {
        lemma_digit_run_end(sq, start as int);
    }
    loop
        invariant
            start <= j <= n,
            n == sq.len(),
            sq == s@,
            digit_run_end(sq, start as int) == digit_run_end(sq, j as int),
            forall|k: int| start <= k < j ==> is_digit(#[trigger] sq[k]),
            !over ==> val == digits_val(sq, start as int, j as int) && val <= 0x8000_0000,
            over ==> digits_val(sq, start as int, j as int) > 0x8000_0000,
        ensures
            start <= j <= n,
            j == digit_run_end(sq, start as int),
            !over ==> val == digits_val(sq, start as int, j as int) && val <= 0x8000_0000,
            over ==> digits_val(sq, start as int, j as int) > 0x8000_0000,
        decreases n - j,
    {
        if j == n {
            break;
        }
        let c = s.get_char(j);
        if !exec_is_digit(c) {
            break;
        }
        proof {
            lemma_digit_run_end_step(sq, j as int);
            assert(digits_val(sq, start as int, j + 1 as int) == digits_val(
                sq,
                start as int,
                j as int,
            ) * 10 + digit_val(sq[j as int]));
            if over {
                lemma_digits_val_monotone(sq, start as int, j as int, j + 1 as int);
            }
        }
        if !over {
            let d = (c as u32) - 48;
            let next = val * 10 + (d as u64);
            if next > 0x8000_0000 {
                over = true;
            } else {
                val = next;
            }
        }
        j = j + 1;
    }
    (j, val, over)
}

/// Whether `s` begins with the characters of `p`.
pub fn str_starts_with(s: &str, p: &str) -> (r: bool)
    ensures
        r == spec_starts_with(s@, p@),
{
    let n = s.unicode_len();
    let m = p.unicode_len();
    if m > n {
        return false;
    }
    let mut i: usize = 0;
    while i < m
        invariant
            0 <= i <= m <= n,
            n == s@.len(),
            m == p@.len(),
            forall|k: int| 0 <= k < i ==> s@[k] == p@[k],
        decreases m - i,
    {
        if s.get_char(i) != p.get_char(i) {
            proof {
                assert(s@.subrange(0, m as int)[i as int] != p@[i as int]);
            }
            return false;
        }
        i = i + 1;
    }
    proof {
        assert(s@.subrange(0, m as int) =~= p@);
    }
    true
}

/// Splits a line into its whitespace-separated fields, in order.
pub fn split_fields(line: &str) -> (r: Vec<String>)
    ensures
        texts_view(r@) == spec_fields(line@),
{
    let ghost s = line@;
    let n = line.unicode_len();
    let mut out: Vec<String> = Vec::new();
    let mut pos: usize = 0;
    proof {
        assert(texts_view(out@) + fields_from(s, 0) =~= fields_from(s, 0));
    }
    while pos < n
        invariant
            0 <= pos <= n,
            n == s.len(),
            s == line@,
            spec_fields(s) == texts_view(out@) + fields_from(s, pos as int),
        decreases n - pos,
    {
        let c = line.get_char(pos);
        if exec_is_blank(c) {
            pos = pos + 1;
        } else {
            let mut j: usize = pos + 1;
            proof {
                lemma_field_run_end(s, pos as int);
            }
            loop
                invariant
                    pos + 1 <= j <= n,
                    n == s.len(),
                    s == line@,
                    field_run_end(s, pos as int) == field_run_end(s, j as int),
                ensures
                    pos + 1 <= j <= n,
                    j == field_run_end(s, pos as int),
                decreases n - j,
            {
                if j == n {
                    break;
                }
                if exec_is_blank(line.get_char(j)) {
                    break;
                }
                proof {
                    assert(field_run_end(s, j as int) == field_run_end(s, j + 1));
                }
                j = j + 1;
            }
            let field = line.substring_char(pos, j).to_owned();
            proof {
                assert(fields_from(s, pos as int) == seq![s.subrange(pos as int, j as int)]
                    + fields_from(s, j as int));
                assert(texts_view(out@.push(field)) =~= texts_view(out@) + seq![field@]);
                assert(texts_view(out@) + (seq![s.subrange(pos as int, j as int)] + fields_from(
                    s,
                    j as int,
                )) =~= (texts_view(out@) + seq![s.subrange(pos as int, j as int)]) + fields_from(
                    s,
                    j as int,
                ));
            }
            out.push(field);
            pos = j;
        }
    }
    proof {
        assert(fields_from(s, n as int) =~= Seq::<Seq<char>>::empty());
        assert(texts_view(out@) + Seq::<Seq<char>>::empty() =~= texts_view(out@));
    }
    out
}

/// Reads a whole field as an unsigned number, exactly as `field_u32` says.
pub fn parse_u32_field(f: &str) -> (r: Option<u32>)
    ensures
        match field_u32(f@) {
            Some(v) => r matches Some(x) && x as int == v,
            Option::None => r is None,
        },
{
    let n = f.unicode_len();
    if n == 0 {
        return Option::None;
    }
    let (end, val, over) = scan_number(f, 0);
    proof {
        lemma_digit_run_end(f@, 0);
    }
    if end != n {
        proof {
            assert(!is_digit(f@[end as int]));
        }
        return Option::None;
    }
    if over {
        return Option::None;
    }
    Some(val as u32)
}

/// Joins the fields from `start` on with single spaces, exactly as
/// `join_fields` says.
pub fn join_fields_from(fields: &Vec<String>, start: usize) -> (r: String)
    ensures
        r@ == join_fields(texts_view(fields@), start as int),
{
    let ghost fv = texts_view(fields@);
    let n = fields.len();
    let mut out = String::new();
    if start >= n {
        proof {
            assert(join_fields(fv, start as int) =~= Seq::<char>::empty());
        }
        return out;
    }
    let mut k: usize = start;
    while k < n
        invariant
            0 <= start <= k <= n,
            n == fv.len(),
            fv == texts_view(fields@),
            out@ + join_fields(fv, k as int) == join_fields(fv, start as int),
        decreases n - k,
    {
        let ghost prev = out@;
        proof {
            assert(fv[k as int] == fields@[k as int]@);
        }
        out.append(fields[k].as_str());
        if k + 1 < n {
            out.append(" ");
            proof {
                reveal_strlit(" ");
                assert(" "@ =~= seq![' ']);
                assert(out@ =~= prev + (fv[k as int] + seq![' ']));
                assert(join_fields(fv, k as int) == fv[k as int] + seq![' '] + join_fields(
                    fv,
                    k + 1,
                ));
                assert(out@ + join_fields(fv, k + 1) =~= prev + join_fields(fv, k as int));
            }
        } else {
            proof {
                assert(join_fields(fv, k as int) == fv[k as int]);
                assert(join_fields(fv, k + 1) =~= Seq::<char>::empty());
                assert(out@ + join_fields(fv, k + 1) =~= prev + join_fields(fv, k as int));
            }
        }
        k = k + 1;
    }
    proof {
        assert(join_fields(fv, n as int) =~= Seq::<char>::empty());
        assert(out@ =~= out@ + join_fields(fv, n as int));
    }
    out
}

} // verus!
