//! Line-level pieces of the BDF text format: keyword prefixes, fields split
//! at ASCII whitespace, and signed decimal integers.

use vstd::prelude::*;

verus! {

pub open spec fn is_dec_digit(c: char) -> bool {
    '0' <= c && c <= '9'
}

pub open spec fn all_dec_digits(s: Seq<char>) -> bool {
    forall|i: int| 0 <= i < s.len() ==> is_dec_digit(#[trigger] s[i])
}

/// Value of a run of decimal digits, most significant first.
pub open spec fn dec_value(s: Seq<char>) -> int
    decreases s.len(),
{
    if s.len() == 0 {
        0
    } else {
        dec_value(s.drop_last()) * 10 + (s.last() as int - '0' as int)
    }
}

/// A signed decimal number: an optional `+` or `-` and one or more digits.
pub open spec fn int_text(s: Seq<char>) -> Option<int> {
    if s.len() > 0 && (s[0] == '-' || s[0] == '+') {
        let d = s.drop_first();
        if d.len() > 0 && all_dec_digits(d) {
            Some(if s[0] == '-' { -dec_value(d) } else { dec_value(d) })
        } else {
            None
        }
    } else if s.len() > 0 && all_dec_digits(s) {
        Some(dec_value(s))
    } else {
        None
    }
}

/// The `i32` a text denotes, when it is a signed decimal number in range.
pub open spec fn i32_text(s: Seq<char>) -> Option<i32> {
    match int_text(s) {
        Some(v) => if i32::MIN <= v <= i32::MAX {
            Some(v as i32)
        } else {
            None
        },
        None => None,
    }
}

/// The characters that `split_ascii_whitespace` splits at.
pub open spec fn is_ascii_space(c: char) -> bool {
    c == ' ' || c == '\t' || c == '\n' || c == '\x0C' || c == '\r'
}

/// The fields finished so far and the field being read, after reading `s`.
pub open spec fn fields_scan(s: Seq<char>) -> (Seq<Seq<char>>, Seq<char>)
    decreases s.len(),
{
    if s.len() == 0 {
        (Seq::empty(), Seq::empty())
    } else {
        let (done, cur) = fields_scan(s.drop_last());
        if is_ascii_space(s.last()) {
            if cur.len() > 0 {
                (done.push(cur), Seq::empty())
            } else {
                (done, cur)
            }
        } else {
            (done, cur.push(s.last()))
        }
    }
}

/// The non-empty runs of `s` between ASCII whitespace, in order.
pub open spec fn ascii_fields(s: Seq<char>) -> Seq<Seq<char>> {
    let (done, cur) = fields_scan(s);
    if cur.len() > 0 {
        done.push(cur)
    } else {
        done
    }
}

/// `s` holds exactly `n` fields and each is an `i32`.
pub open spec fn i32_fields(s: Seq<char>, n: nat) -> Option<Seq<i32>> {
    let f = ascii_fields(s);
    if f.len() == n && forall|i: int| 0 <= i < n ==> (#[trigger] i32_text(f[i])) is Some {
        Some(Seq::new(n, |i: int| i32_text(f[i])->0))
    } else {
        None
    }
}

pub open spec fn starts_with(line: Seq<char>, key: Seq<char>) -> bool {
    key.len() <= line.len() && line.subrange(0, key.len() as int) == key
}

pub open spec fn char_views(v: Seq<Vec<char>>) -> Seq<Seq<char>> {
    v.map_values(|x: Vec<char>| x@)
}

/// The characters of a text, one by one.
pub fn chars_of(text: &str) -> (chars: Vec<char>)
    ensures
        chars@ == text@,
{
    let n = text.unicode_len();
    let mut chars: Vec<char> = Vec::new();
    let mut i: usize = 0;
    while i < n
        invariant
            n == text@.len(),
            i <= n,
            chars@ == text@.take(i as int),
        decreases n - i,
    {
        let c = text.get_char(i);
        chars.push(c);
        assert(text@.take(i + 1) =~= text@.take(i as int).push(c));
        i = i + 1;
    }
    assert(text@.take(n as int) =~= text@);
    chars
}

/// `line` begins with `key`.
pub fn has_prefix(line: &Vec<char>, key: &str) -> (found: bool)
    ensures
        found == starts_with(line@, key@),
{
    let k = key.unicode_len();
    if k > line.len() {
        return false;
    }
    let mut i: usize = 0;
    while i < k
        invariant
            k == key@.len(),
            k <= line@.len(),
            i <= k,
            forall|j: int| 0 <= j < i ==> line@[j] == key@[j],
        decreases k - i,
    {
        if line[i] != key.get_char(i) {
            assert(line@.subrange(0, k as int)[i as int] != key@[i as int]);
            return false;
        }
        i = i + 1;
    }
    assert(line@.subrange(0, k as int) =~= key@);
    true
}

/// `line` is exactly `key`.
pub fn line_is(line: &Vec<char>, key: &str) -> (equal: bool)
    ensures
        equal == (line@ == key@),
{
    let p = has_prefix(line, key);
    proof {
        if line@ == key@ {
            assert(line@.subrange(0, key@.len() as int) =~= line@);
        }
    }
    if p && line.len() == key.unicode_len() {
        assert(line@ =~= line@.subrange(0, key@.len() as int));
        true
    } else {
        false
    }
}

/// The characters of `line` from position `start` on.
pub fn tail_from(line: &Vec<char>, start: usize) -> (rest: Vec<char>)
    requires
        start <= line@.len(),
    ensures
        rest@ == line@.skip(start as int),
{
    let mut rest: Vec<char> = Vec::new();
    let mut i: usize = start;
    while i < line.len()
        invariant
            start <= i <= line@.len(),
            rest@ == line@.subrange(start as int, i as int),
        decreases line@.len() - i,
    {
        rest.push(line[i]);
        assert(line@.subrange(start as int, i + 1) =~= line@.subrange(start as int, i as int).push(line@[i as int]));
        i = i + 1;
    }
    assert(line@.skip(start as int) =~= line@.subrange(start as int, line@.len() as int));
    rest
}

proof fn lemma_dec_value_nonneg(s: Seq<char>)
    requires
        all_dec_digits(s),
    ensures
        dec_value(s) >= 0,
    decreases s.len(),
{
    if s.len() > 0 {
        assert(is_dec_digit(s[s.len() - 1]));
        lemma_dec_value_nonneg(s.drop_last());
    }
}

proof fn lemma_dec_value_monotone(d: Seq<char>, i: int, j: int)
    requires
        0 <= i <= j <= d.len(),
        all_dec_digits(d),
    ensures
        dec_value(d.take(i)) <= dec_value(d.take(j)),
    decreases j - i,
{
    if i < j {
        lemma_dec_value_monotone(d, i, j - 1);
        assert(d.take(j).drop_last() =~= d.take(j - 1));
        assert(is_dec_digit(d[j - 1]));
        assert(all_dec_digits(d.take(j - 1)));
        lemma_dec_value_nonneg(d.take(j - 1));
    }
}

/// Read a signed decimal `i32` as `str::parse` does.
pub fn parse_i32(s: &Vec<char>) -> (value: Option<i32>)
    ensures
        value == i32_text(s@),
{
    let n = s.len();
    if n == 0 {
        return None;
    }
    let first = s[0];
    let negative = first == '-';
    let start: usize = if first == '-' || first == '+' {
        1
    } else {
        0
    };
    if start == n {
        return None;
    }
    let ghost d = s@.skip(start as int);
    proof {
        if start == 1 {
            assert(d =~= s@.drop_first());
        } else {
            assert(d =~= s@);
        }
    }
    let mut acc: u64 = 0;
    let mut big = false;
    let mut i: usize = start;
    while i < n
        invariant
            n == s@.len(),
            start <= i <= n,
            start < n,
            d == s@.skip(start as int),
            start == 0 || start == 1,
            start == 1 ==> d == s@.drop_first() && (s@[0] == '-' || s@[0] == '+'),
            start == 0 ==> d == s@ && !(s@[0] == '-' || s@[0] == '+'),
            negative == (s@[0] == '-'),
            all_dec_digits(d.take(i - start)),
            !big ==> acc == dec_value(d.take(i - start)) && acc <= 0x8000_0000,
            big ==> dec_value(d.take(i - start)) > 0x8000_0000,
        decreases n - i,
    {
        let c = s[i];
        assert(c == d[i - start]);
        if c < '0' || c > '9' {
            assert(!all_dec_digits(d)) by {
                assert(!is_dec_digit(d[i - start]));
            }
            proof {
                if start == 1 {
                    assert(s@.drop_first() == d);
                } else {
                    assert(!all_dec_digits(s@));
                }
                assert(int_text(s@) is None);
            }
            return None;
        }
        assert(d.take(i - start + 1).drop_last() =~= d.take(i - start));
        assert(all_dec_digits(d.take(i - start + 1)));
        proof {
            lemma_dec_value_nonneg(d.take(i - start));
        }
        if !big {
            let nv: u64 = acc * 10 + (c as u32 - '0' as u32) as u64;
            if nv > 0x8000_0000 {
                big = true;
            } else {
                acc = nv;
            }
        }
        i = i + 1;
    }
    assert(d.take(n - start) =~= d);
    if big {
        return None;
    }
    if negative {
        let v: i64 = 0 - (acc as i64);
        Some(v as i32)
    } else if acc <= 0x7fff_ffff {
        Some(acc as i32)
    } else {
        None
    }
}

/// Split a text into its ASCII-whitespace separated fields.
pub fn ascii_fields_of(s: &Vec<char>) -> (fields: Vec<Vec<char>>)
    ensures
        char_views(fields@) == ascii_fields(s@),
{
    let mut done: Vec<Vec<char>> = Vec::new();
    let mut cur: Vec<char> = Vec::new();
    let mut i: usize = 0;
    while i < s.len()
        invariant
            i <= s@.len(),
            fields_scan(s@.take(i as int)) == (char_views(done@), cur@),
        decreases s@.len() - i,
    {
        let c = s[i];
        assert(s@.take(i + 1).drop_last() =~= s@.take(i as int));
        let sp = c == ' ' || c == '\t' || c == '\n' || c == '\x0C' || c == '\r';
        if sp {
            if cur.len() > 0 {
                let ghost before = done@;
                let ghost cv = cur@;
                done.push(cur);
                cur = Vec::new();
                assert(char_views(done@) =~= char_views(before).push(cv));
            }
        } else {
            cur.push(c);
        }
        i = i + 1;
    }
    assert(s@.take(s@.len() as int) =~= s@);
    if cur.len() > 0 {
        let ghost before = done@;
        let ghost cv = cur@;
        done.push(cur);
        assert(char_views(done@) =~= char_views(before).push(cv));
    }
    done
}

/// Read exactly `n` whitespace-separated `i32` fields.
pub fn parse_i32_fields(s: &Vec<char>, n: usize) -> (values: Option<Vec<i32>>)
    ensures
        values matches Some(v) ==> i32_fields(s@, n as nat) == Some(v@),
        values is None ==> i32_fields(s@, n as nat) is None,
{
    let fields = ascii_fields_of(s);
    let ghost f = ascii_fields(s@);
    if fields.len() != n {
        return None;
    }
    let mut values: Vec<i32> = Vec::new();
    let mut i: usize = 0;
    while i < n
        invariant
            fields@.len() == n,
            char_views(fields@) == f,
            f == ascii_fields(s@),
            i <= n,
            values@.len() == i,
            forall|j: int| 0 <= j < i ==> (#[trigger] i32_text(f[j])) == Some(values@[j]),
        decreases n - i,
    {
        assert(f[i as int] == fields@[i as int]@);
        match parse_i32(&fields[i]) {
            Some(v) => {
                values.push(v);
            },
            None => {
                assert(i32_text(f[i as int]) is None);
                return None;
            },
        }
        i = i + 1;
    }
    assert(forall|j: int| 0 <= j < n ==> (#[trigger] i32_text(f[j])) is Some);
    assert(Seq::new(n as nat, |j: int| i32_text(f[j])->0) =~= values@);
    Some(values)
}

} // verus!
