//! Numbers as text.

use vstd::prelude::*;

verus! {

/// The character that stands for a digit below sixteen.
pub open spec fn digit_char(n: int) -> char {
    if n == 0 {
        '0'
    } else if n == 1 {
        '1'
    } else if n == 2 {
        '2'
    } else if n == 3 {
        '3'
    } else if n == 4 {
        '4'
    } else if n == 5 {
        '5'
    } else if n == 6 {
        '6'
    } else if n == 7 {
        '7'
    } else if n == 8 {
        '8'
    } else if n == 9 {
        '9'
    } else if n == 10 {
        'a'
    } else if n == 11 {
        'b'
    } else if n == 12 {
        'c'
    } else if n == 13 {
        'd'
    } else if n == 14 {
        'e'
    } else {
        'f'
    }
}

/// The digit `n`, below sixteen, as text.
pub fn digit_str(n: u64) -> (s: &'static str)
    requires
        n < 16,
    ensures
        s@ == seq![digit_char(n as int)],
{
    proof {
        reveal_strlit("0");
        reveal_strlit("1");
        reveal_strlit("2");
        reveal_strlit("3");
        reveal_strlit("4");
        reveal_strlit("5");
        reveal_strlit("6");
        reveal_strlit("7");
        reveal_strlit("8");
        reveal_strlit("9");
        reveal_strlit("a");
        reveal_strlit("b");
        reveal_strlit("c");
        reveal_strlit("d");
        reveal_strlit("e");
        reveal_strlit("f");
    }
    let s = if n == 0 {
        "0"
    } else if n == 1 {
        "1"
    } else if n == 2 {
        "2"
    } else if n == 3 {
        "3"
    } else if n == 4 {
        "4"
    } else if n == 5 {
        "5"
    } else if n == 6 {
        "6"
    } else if n == 7 {
        "7"
    } else if n == 8 {
        "8"
    } else if n == 9 {
        "9"
    } else if n == 10 {
        "a"
    } else if n == 11 {
        "b"
    } else if n == 12 {
        "c"
    } else if n == 13 {
        "d"
    } else if n == 14 {
        "e"
    } else {
        "f"
    };
    assert(s@ =~= seq![digit_char(n as int)]);
    s
}

/// The decimal numeral of `n`: no sign, no leading zero but for zero itself.
pub open spec fn decimal(n: nat) -> Seq<char>
    decreases n,
{
    if n < 10 {
        seq![digit_char(n as int)]
    } else {
        decimal(n / 10).push(digit_char((n % 10) as int))
    }
}

/// The last `width` hexadecimal digits of `n`, in lower case, the most
/// significant first.
pub open spec fn hex_fixed(n: nat, width: nat) -> Seq<char>
    decreases width,
{
    if width == 0 {
        Seq::empty()
    } else {
        hex_fixed(n / 16, (width - 1) as nat).push(digit_char((n % 16) as int))
    }
}

/// A fixed-width numeral has the width it was asked for.
pub proof fn lemma_hex_fixed_len(n: nat, width: nat)
    ensures
        hex_fixed(n, width).len() == width,
    decreases width,
{
    if width > 0 {
        lemma_hex_fixed_len(n / 16, (width - 1) as nat);
    }
}

/// Writes `n` in decimal.
pub fn u64_to_decimal(n: u64) -> (s: String)
    ensures
        s@ == decimal(n as nat),
{
    u128_to_decimal(n as u128)
}

/// Whether `s` is the text `literal`.
pub fn text_is(s: &String, literal: &str) -> (b: bool)
    ensures
        b == (s@ == literal@),
{
    let other = String::from_str(literal);
    *s == other
}

/// Writes `n` in decimal.
pub fn u128_to_decimal(n: u128) -> (s: String)
    ensures
        s@ == decimal(n as nat),
{
    let mut acc = String::from_str(digit_str((n % 10) as u64));
    let mut rest: u128 = n / 10;
    while rest > 0
        invariant
            decimal(n as nat) == if rest > 0 {
                decimal(rest as nat) + acc@
            } else {
                acc@
            },
        decreases rest,
    {
        let mut next = String::from_str(digit_str((rest % 10) as u64));
        next.append(acc.as_str());
        proof {
            let d = seq![digit_char((rest % 10) as int)];
            if rest >= 10 {
                assert(decimal(rest as nat) == decimal((rest / 10) as nat).push(
                    digit_char((rest % 10) as int),
                ));
                assert(decimal((rest / 10) as nat).push(digit_char((rest % 10) as int)) + acc@
                    =~= decimal((rest / 10) as nat) + (d + acc@));
            }
        }
        acc = next;
        rest = rest / 10;
    }
    acc
}

/// Writes `n` as sixteen hexadecimal digits.
pub fn u64_to_hex(n: u64) -> (s: String)
    ensures
        s@ == hex_fixed(n as nat, 16),
{
    let mut acc = String::new();
    let mut rest: u64 = n;
    let mut i: u64 = 0;
    while i < 16
        invariant
            i <= 16,
            hex_fixed(n as nat, 16) == hex_fixed(rest as nat, (16 - i) as nat) + acc@,
        decreases 16 - i,
    {
        let mut next = String::from_str(digit_str(rest % 16));
        next.append(acc.as_str());
        proof {
            let d = seq![digit_char((rest % 16) as int)];
            assert(hex_fixed((rest / 16) as nat, (15 - i) as nat).push(
                digit_char((rest % 16) as int),
            ) + acc@ =~= hex_fixed((rest / 16) as nat, (15 - i) as nat) + (d + acc@));
        }
        acc = next;
        rest = rest / 16;
        i += 1;
    }
    assert(hex_fixed(rest as nat, 0) + acc@ =~= acc@);
    acc
}

/// The position of the last `c` in `s`, or -1 if there is none.
pub open spec fn last_index_of(s: Seq<char>, c: char) -> int
    decreases s.len(),
{
    if s.len() == 0 {
        -1
    } else if s.last() == c {
        s.len() - 1
    } else {
        last_index_of(s.drop_last(), c)
    }
}

/// The last position of a character is a position of it, and none comes later.
pub proof fn lemma_last_index_of(s: Seq<char>, c: char)
    ensures
        -1 <= last_index_of(s, c) < s.len(),
        last_index_of(s, c) >= 0 ==> s[last_index_of(s, c)] == c,
        forall|k: int| last_index_of(s, c) < k < s.len() ==> s[k] != c,
    decreases s.len(),
{
    if s.len() > 0 && s.last() != c {
        let init = s.drop_last();
        lemma_last_index_of(init, c);
        assert forall|k: int| last_index_of(s, c) < k < s.len() implies s[k] != c by {
            if k < init.len() {
                assert(init[k] == s[k]);
            }
        }
    }
}

/// A position of `c` after which no `c` comes is the last.
pub proof fn lemma_last_index_is(s: Seq<char>, c: char, i: int)
    requires
        -1 <= i < s.len(),
        i >= 0 ==> s[i] == c,
        forall|k: int| i < k < s.len() ==> s[k] != c,
    ensures
        last_index_of(s, c) == i,
    decreases s.len(),
{
    if s.len() > 0 {
        if s.last() == c {
        } else {
            lemma_last_index_is(s.drop_last(), c, i);
        }
    }
}

/// Finds the last `c` in `s`.
pub fn find_last(s: &str, c: char) -> (r: Option<usize>)
    ensures
        match r {
            Some(i) => i == last_index_of(s@, c),
            None => last_index_of(s@, c) == -1,
        },
{
    let n = s.unicode_len();
    let mut i: usize = n;
    while i > 0
        invariant
            i <= n,
            n == s@.len(),
            forall|k: int| i <= k < n ==> s@[k] != c,
        decreases i,
    {
        i -= 1;
        if s.get_char(i) == c {
            proof {
                lemma_last_index_is(s@, c, i as int);
            }
            return Some(i);
        }
    }
    proof {
        lemma_last_index_is(s@, c, -1);
    }
    None
}

/// Whether `s` begins with `prefix`.
///
/// Trusted: this is `str::starts_with` of the standard library with a text
/// as the pattern, which is documented to hold exactly when the pattern
/// matches a prefix of the text.
#[verifier::external_body]
pub(crate) fn starts_with(s: &str, prefix: &str) -> (b: bool)
    ensures
        b == prefix@.is_prefix_of(s@),
{
    s.starts_with(prefix)
}

} // verus!
