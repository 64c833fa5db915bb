//! Decimal numbers and space-separated fields, read from and written to text.
use vstd::prelude::*;
use vstd::string::*;

verus! {

pub open spec fn is_digit(c: char) -> bool {
    '0' <= c <= '9'
}

pub open spec fn digit_value(c: char) -> nat {
    ((c as u32) - ('0' as u32)) as nat
}

/// The number written by the decimal digits `s` (most significant first).
pub open spec fn digits_value(s: Seq<char>) -> nat
    decreases s.len(),
{
    if s.len() == 0 {
        0
    } else {
        10 * digits_value(s.drop_last()) + digit_value(s.last())
    }
}

/// `s` is a non-empty run of decimal digits.
pub open spec fn is_numeral(s: Seq<char>) -> bool {
    s.len() > 0 && forall|k: int| 0 <= k < s.len() ==> is_digit(#[trigger] s[k])
}

/// `s` without a leading `+`, if it has one.
pub open spec fn unsigned_body(s: Seq<char>) -> Seq<char> {
    if s.len() > 0 && s[0] == '+' {
        s.drop_first()
    } else {
        s
    }
}

/// The `usize` that `s` writes in decimal, with an optional leading `+`, if
/// it writes one.
pub open spec fn usize_of(s: Seq<char>) -> Option<usize> {
    let body = unsigned_body(s);
    if is_numeral(body) && digits_value(body) <= usize::MAX {
        Some(digits_value(body) as usize)
    } else {
        None
    }
}

/// The `isize` that `s` writes in decimal, with an optional leading `+` or
/// `-`, if it writes one.
pub open spec fn isize_of(s: Seq<char>) -> Option<isize> {
    if s.len() > 0 && s[0] == '-' {
        let body = s.drop_first();
        if is_numeral(body) && -digits_value(body) >= isize::MIN {
            Some((-digits_value(body)) as isize)
        } else {
            None
        }
    } else {
        let body = unsigned_body(s);
        if is_numeral(body) && digits_value(body) <= isize::MAX {
            Some(digits_value(body) as isize)
        } else {
            None
        }
    }
}

/// The digit character for `d < 10`.
pub open spec fn digit_char(d: nat) -> char {
    if d == 0 { '0' }
    else if d == 1 { '1' }
    else if d == 2 { '2' }
    else if d == 3 { '3' }
    else if d == 4 { '4' }
    else if d == 5 { '5' }
    else if d == 6 { '6' }
    else if d == 7 { '7' }
    else if d == 8 { '8' }
    else { '9' }
}

/// `n` written in decimal, without leading zeros.
pub open spec fn decimal(n: nat) -> Seq<char>
    decreases n,
{
    if n < 10 {
        seq![digit_char(n)]
    } else {
        decimal(n / 10).push(digit_char(n % 10))
    }
}

/// `v` written in decimal, with a `-` in front when negative.
pub open spec fn signed_decimal(v: int) -> Seq<char> {
    if v < 0 {
        seq!['-'] + decimal((-v) as nat)
    } else {
        decimal(v as nat)
    }
}

/// The fields of `s` between single spaces: two spaces in a row enclose an
/// empty field, and a text without spaces is one field.
pub open spec fn fields(s: Seq<char>) -> Seq<Seq<char>>
    decreases s.len(),
{
    if s.len() == 0 {
        seq![Seq::empty()]
    } else if s.last() == ' ' {
        fields(s.drop_last()).push(Seq::empty())
    } else {
        let f = fields(s.drop_last());
        f.update(f.len() - 1, f.last().push(s.last()))
    }
}

proof fn lemma_fields_len(s: Seq<char>)
    ensures
        fields(s).len() >= 1,
    decreases s.len(),
{
    if s.len() > 0 {
        lemma_fields_len(s.drop_last());
    }
}

/// `s` holds no space.
pub open spec fn spaceless(s: Seq<char>) -> bool {
    forall|k: int| 0 <= k < s.len() ==> #[trigger] s[k] != ' '
}

/// A text without spaces is a single field.
pub proof fn lemma_fields_spaceless(s: Seq<char>)
    requires
        spaceless(s),
    ensures
        fields(s) == seq![s],
    decreases s.len(),
{
    if s.len() > 0 {
        assert(spaceless(s.drop_last())) by {
            assert forall|k: int| 0 <= k < s.drop_last().len() implies #[trigger] s.drop_last()[k] != ' ' by {
                assert(s.drop_last()[k] == s[k]);
            }
        }
        lemma_fields_spaceless(s.drop_last());
        assert(s.last() != ' ') by {
            assert(s[s.len() - 1] != ' ');
        }
        assert(s.drop_last().push(s.last()) =~= s);
        assert(fields(s) =~= seq![s]);
    } else {
        assert(s =~= Seq::<char>::empty());
    }
}

/// Joining two texts with a space joins their fields.
pub proof fn lemma_fields_join(s: Seq<char>, t: Seq<char>)
    ensures
        fields(s + seq![' '] + t) == fields(s) + fields(t),
    decreases t.len(),
{
    let j = s + seq![' '] + t;
    if t.len() == 0 {
        assert(j =~= s.push(' '));
        assert(j.drop_last() =~= s);
        assert(fields(j) =~= fields(s) + fields(t));
    } else {
        assert(j.drop_last() =~= s + seq![' '] + t.drop_last());
        lemma_fields_join(s, t.drop_last());
        lemma_fields_len(t.drop_last());
        lemma_fields_len(s);
        assert(fields(j) =~= fields(s) + fields(t));
    }
}

proof fn lemma_digit_char(d: nat)
    requires
        d < 10,
    ensures
        is_digit(digit_char(d)),
        digit_value(digit_char(d)) == d,
{
}

/// A number written in decimal reads back as itself.
pub proof fn lemma_decimal_reads_back(n: nat)
    ensures
        is_numeral(decimal(n)),
        spaceless(decimal(n)),
        decimal(n)[0] != '+',
        digits_value(decimal(n)) == n,
    decreases n,
{
    lemma_digit_char(n % 10);
    if n >= 10 {
        lemma_decimal_reads_back(n / 10);
        let d = decimal(n);
        assert(d.drop_last() =~= decimal(n / 10));
        assert(d.last() == digit_char(n % 10));
        assert(10 * (n / 10) + n % 10 == n);
        assert(digits_value(d) == 10 * digits_value(d.drop_last()) + digit_value(d.last()));
        assert(forall|k: int| 0 <= k < d.len() - 1 ==> d[k] == decimal(n / 10)[k]);
    } else {
        assert(decimal(n) =~= seq![digit_char(n)]);
        assert(decimal(n).drop_last() =~= Seq::<char>::empty());
        assert(digits_value(decimal(n)) == 10 * digits_value(Seq::<char>::empty()) + digit_value(digit_char(n)));
    }
}

/// The characters of `s`.
pub fn chars_of(s: &str) -> (r: Vec<char>)
    ensures
        r@ == s@,
{
    let n = s.unicode_len();
    let mut r: Vec<char> = Vec::new();
    let mut k: usize = 0;
    while k < n
        invariant
            k <= n,
            n == s@.len(),
            r@ == s@.subrange(0, k as int),
        decreases n - k,
    {
        r.push(s.get_char(k));
        proof {
            assert(r@ =~= s@.subrange(0, k + 1));
        }
        k = k + 1;
    }
    proof {
        assert(r@ =~= s@);
    }
    r
}

/// The fields of `s` between single spaces.
pub fn split_fields(s: &Vec<char>) -> (r: Vec<Vec<char>>)
    ensures
        r@.len() >= 1,
        r@.len() == fields(s@).len(),
        forall|k: int| 0 <= k < r@.len() ==> #[trigger] r@[k]@ == fields(s@)[k],
{
    let mut r: Vec<Vec<char>> = Vec::new();
    let mut cur: Vec<char> = Vec::new();
    let mut k: usize = 0;
    while k < s.len()
        invariant
            k <= s@.len(),
            r@.len() + 1 == fields(s@.subrange(0, k as int)).len(),
            forall|j: int| 0 <= j < r@.len() ==> #[trigger] r@[j]@ == fields(s@.subrange(0, k as int))[j],
            cur@ == fields(s@.subrange(0, k as int)).last(),
        decreases s@.len() - k,
    {
        let ghost pre = s@.subrange(0, k as int);
        let ghost next = s@.subrange(0, k + 1);
        proof {
            assert(next.drop_last() =~= pre);
            lemma_fields_len(pre);
        }
        if s[k] == ' ' {
            let done = cur;
            r.push(done);
            cur = Vec::new();
        } else {
            cur.push(s[k]);
        }
        k = k + 1;
    }
    proof {
        assert(s@.subrange(0, s@.len() as int) =~= s@);
        lemma_fields_len(s@);
    }
    r.push(cur);
    r
}

proof fn lemma_digits_value_grows(s: Seq<char>, j: int)
    requires
        0 <= j <= s.len(),
    ensures
        digits_value(s.subrange(0, j)) <= digits_value(s),
    decreases s.len(),
{
    if j < s.len() {
        assert(s.drop_last() =~= s.subrange(0, s.len() - 1));
        assert(s.drop_last().subrange(0, j) =~= s.subrange(0, j));
        lemma_digits_value_grows(s.drop_last(), j);
    } else {
        assert(s.subrange(0, j) =~= s);
    }
}

/// The value of the decimal digits `s[lo..]`, if they are a non-empty run of
/// digits and the value fits a `usize`.
fn parse_digits(s: &Vec<char>, lo: usize) -> (r: Option<usize>)
    requires
        lo <= s@.len(),
    ensures
        ({
            let body = s@.subrange(lo as int, s@.len() as int);
            r == if is_numeral(body) && digits_value(body) <= usize::MAX {
                Some(digits_value(body) as usize)
            } else {
                None::<usize>
            }
        }),
{
    let ghost body = s@.subrange(lo as int, s@.len() as int);
    if lo == s.len() {
        return None;
    }
    let mut acc: usize = 0;
    let mut k: usize = lo;
    while k < s.len()
        invariant
            lo <= k <= s@.len(),
            body == s@.subrange(lo as int, s@.len() as int),
            acc == digits_value(s@.subrange(lo as int, k as int)),
            forall|j: int| lo <= j < k ==> is_digit(#[trigger] s@[j]),
        decreases s@.len() - k,
    {
        let c = s[k];
        let ghost pre = s@.subrange(lo as int, k as int);
        let ghost next = s@.subrange(lo as int, k + 1);
        proof {
            assert(next.drop_last() =~= pre);
            assert(body.subrange(0, k + 1 - lo) =~= next);
        }
        if !('0' <= c && c <= '9') {
            proof {
                assert(!is_digit(body[k - lo]));
            }
            return None;
        }
        let d = (c as u32 - '0' as u32) as usize;
        let m = acc.checked_mul(10);
        let v = match m {
            Some(m) => m.checked_add(d),
            None => None,
        };
        match v {
            Some(v) => {
                acc = v;
            },
            None => {
                proof {
                    lemma_digits_value_grows(body, k + 1 - lo);
                }
                return None;
            },
        }
        k = k + 1;
    }
    proof {
        assert(s@.subrange(lo as int, k as int) =~= body);
    }
    Some(acc)
}

/// The `usize` written in decimal by `s`, with an optional leading `+`.
pub fn parse_usize(s: &Vec<char>) -> (r: Option<usize>)
    ensures
        r == usize_of(s@),
{
    let lo: usize = if s.len() > 0 && s[0] == '+' {
        1
    } else {
        0
    };
    proof {
        assert(s@.subrange(lo as int, s@.len() as int) =~= unsigned_body(s@));
    }
    parse_digits(s, lo)
}

/// The `isize` written in decimal by `s`, with an optional leading `+` or `-`.
pub fn parse_isize(s: &Vec<char>) -> (r: Option<isize>)
    ensures
        r == isize_of(s@),
{
    if s.len() > 0 && s[0] == '-' {
        proof {
            assert(s@.subrange(1, s@.len() as int) =~= s@.drop_first());
        }
        match parse_digits(s, 1) {
            Some(m) => {
                if m <= isize::MAX as usize {
                    Some(-(m as isize))
                } else if m == isize::MAX as usize + 1 {
                    Some(isize::MIN)
                } else {
                    None
                }
            },
            None => None,
        }
    } else {
        match parse_usize(s) {
            Some(m) => {
                if m <= isize::MAX as usize {
                    Some(m as isize)
                } else {
                    None
                }
            },
            None => None,
        }
    }
}

/// The one-character text of the digit `d`.
fn digit_text(d: usize) -> (r: &'static str)
    requires
        d < 10,
    ensures
        r@ == seq![digit_char(d as nat)],
{
    proof {
        reveal_strlit("0");
        reveal_strlit("1");
        reveal_strlit("2");
        reveal_strlit("3");
        reveal_strlit("4");
        reveal_strlit("5");
        reveal_strlit("6");
        reveal_strlit("7");
        reveal_strlit("8");
        reveal_strlit("9");
    }
    let r = if d == 0 {
        "0"
    } else if d == 1 {
        "1"
    } else if d == 2 {
        "2"
    } else if d == 3 {
        "3"
    } else if d == 4 {
        "4"
    } else if d == 5 {
        "5"
    } else if d == 6 {
        "6"
    } else if d == 7 {
        "7"
    } else if d == 8 {
        "8"
    } else {
        "9"
    };
    proof {
        assert(r@ =~= seq![digit_char(d as nat)]);
    }
    r
}

/// Appends `n` in decimal to `out`.
pub fn push_decimal(out: &mut String, n: usize)
    ensures
        final(out)@ == old(out)@ + decimal(n as nat),
    decreases n,
{
    if n >= 10 {
        push_decimal(out, n / 10);
    }
    out.append(digit_text(n % 10));
    proof {
        assert(final(out)@ =~= old(out)@ + decimal(n as nat));
    }
}

/// Appends `v` in decimal to `out`, with a `-` in front when negative.
pub fn push_signed_decimal(out: &mut String, v: isize)
    ensures
        final(out)@ == old(out)@ + signed_decimal(v as int),
{
    if v < 0 {
        proof {
            reveal_strlit("-");
        }
        out.append("-");
        let m: usize = (-(v + 1)) as usize + 1;
        push_decimal(out, m);
        proof {
            assert(final(out)@ =~= old(out)@ + signed_decimal(v as int));
        }
    } else {
        push_decimal(out, v as usize);
    }
}

} // verus!
