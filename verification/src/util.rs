//! Address formatting and ordered-slice search helpers.

use vstd::prelude::*;

verus! {

/// The uppercase hexadecimal digit character for a value in `0..16`.
pub open spec fn hex_digit_char(n: int) -> char {
    if n == 0 {
        '0'
    } else if n == 1 {
        '1'
    } else if n == 2 {
        '2'
    } else if n == 3 {
        '3'
    } else if n == 4 {
        '4'
    } else if n == 5 {
        '5'
    } else if n == 6 {
        '6'
    } else if n == 7 {
        '7'
    } else if n == 8 {
        '8'
    } else if n == 9 {
        '9'
    } else if n == 10 {
        'A'
    } else if n == 11 {
        'B'
    } else if n == 12 {
        'C'
    } else if n == 13 {
        'D'
    } else if n == 14 {
        'E'
    } else {
        'F'
    }
}

/// The last `digits` uppercase hexadecimal digits of `n`, most significant
/// first, zero-padded on the left.
pub open spec fn hex_seq(n: int, digits: nat) -> Seq<char>
    decreases digits,
{
    if digits == 0 {
        Seq::<char>::empty()
    } else {
        hex_seq(n / 16, (digits - 1) as nat).push(hex_digit_char(n % 16))
    }
}

/// `address` in uppercase hexadecimal, zero-padded to 8 digits when it fits
/// in 32 bits and to 16 digits otherwise.
pub open spec fn address_chars(address: u64) -> Seq<char> {
    if address <= 0xFFFFFFFF {
        hex_seq(address as int, 8)
    } else {
        hex_seq(address as int, 16)
    }
}

/// The synthesized name of an unnamed function at `address`:
/// `sub_` followed by `address_chars(address)`.
pub open spec fn synthesized_name(address: u64) -> Seq<char> {
    "sub_"@ + address_chars(address)
}

fn hex_digit_str(n: u64) -> (r: &'static str)
    requires
        n < 16,
    ensures
        r@ == seq![hex_digit_char(n as int)],
{
    proof {
        reveal_strlit("0");
        reveal_strlit("1");
        reveal_strlit("2");
        reveal_strlit("3");
        reveal_strlit("4");
        reveal_strlit("5");
        reveal_strlit("6");
        reveal_strlit("7");
        reveal_strlit("8");
        reveal_strlit("9");
        reveal_strlit("A");
        reveal_strlit("B");
        reveal_strlit("C");
        reveal_strlit("D");
        reveal_strlit("E");
        reveal_strlit("F");
    }
    let r = match n {
        0 => "0",
        1 => "1",
        2 => "2",
        3 => "3",
        4 => "4",
        5 => "5",
        6 => "6",
        7 => "7",
        8 => "8",
        9 => "9",
        10 => "A",
        11 => "B",
        12 => "C",
        13 => "D",
        14 => "E",
        _ => "F",
    };
    proof {
        assert(r@ =~= seq![hex_digit_char(n as int)]);
    }
    r
}

fn push_hex(s: &mut String, n: u64, digits: u64)
    requires
        digits <= 16,
    ensures
        final(s)@ == old(s)@ + hex_seq(n as int, digits as nat),
    decreases digits,
{
    if digits == 0 {
        proof {
            assert(final(s)@ =~= old(s)@ + hex_seq(n as int, 0));
        }
    } else {
        push_hex(s, n / 16, digits - 1);
        s.append(hex_digit_str(n % 16));
        proof {
            assert(final(s)@ =~= old(s)@ + hex_seq(n as int, digits as nat));
        }
    }
}

/// `address` as an uppercase hexadecimal string, zero-padded to 8 digits for
/// 32-bit addresses and to 16 digits for wider ones.
pub fn format_address(address: u64) -> (r: String)
    ensures
        r@ == address_chars(address),
{
    let mut s = String::new();
    if address <= 0xFFFFFFFF {
        push_hex(&mut s, address, 8);
    } else {
        push_hex(&mut s, address, 16);
    }
    proof {
        assert(s@ =~= address_chars(address));
    }
    s
}

/// The synthesized name `sub_<ADDR>` for an unnamed function at `address`.
pub fn format_function_name(address: u64) -> (r: String)
    ensures
        r@ == synthesized_name(address),
{
    let mut s = String::new();
    s.append("sub_");
    push_hex(&mut s, address, if address <= 0xFFFFFFFF { 8 } else { 16 });
    proof {
        assert(s@ =~= synthesized_name(address));
    }
    s
}

/// Whether `s` is sorted in non-decreasing order.
pub open spec fn sorted(s: Seq<u64>) -> bool {
    forall|i: int, j: int| 0 <= i <= j < s.len() ==> s[i] <= s[j]
}

/// The first index of `s` whose element is not less than `a`; `s.len()` when
/// every element is less.
pub open spec fn lower_bound_spec(s: Seq<u64>, a: u64) -> int
    decreases s.len(),
{
    if s.len() == 0 {
        0
    } else if s[0] >= a {
        0
    } else {
        1 + lower_bound_spec(s.drop_first(), a)
    }
}

/// On a sorted sequence, `lower_bound_spec` splits the indices: everything
/// before it is below `a`, everything from it on is at least `a`.
pub proof fn lemma_lower_bound_spec(s: Seq<u64>, a: u64)
    requires
        sorted(s),
    ensures
        0 <= lower_bound_spec(s, a) <= s.len(),
        forall|k: int| 0 <= k < lower_bound_spec(s, a) ==> s[k] < a,
        forall|k: int| lower_bound_spec(s, a) <= k < s.len() ==> s[k] >= a,
    decreases s.len(),
{
    if s.len() == 0 {
    } else if s[0] >= a {
        assert forall|k: int| 0 <= k < s.len() implies s[k] >= a by {
            assert(s[0] <= s[k]);
        }
    } else {
        let t = s.drop_first();
        assert(sorted(t)) by {
            assert(forall|i: int, j: int|
                0 <= i <= j < t.len() ==> t[i] == s[i + 1] && t[j] == s[j + 1]);
        }
        lemma_lower_bound_spec(t, a);
        let r = lower_bound_spec(s, a);
        assert forall|k: int| 0 <= k < r implies s[k] < a by {
            if k > 0 {
                assert(t[k - 1] < a);
            }
        }
        assert forall|k: int| r <= k < s.len() implies s[k] >= a by {
            assert(t[k - 1] >= a);
        }
    }
}

/// The first index of `container` whose element is not less than `element`;
/// `container.len()` when every element is less.
pub fn lower_bound(container: &Vec<u64>, element: u64) -> (r: usize)
    requires
        sorted(container@),
    ensures
        r == lower_bound_spec(container@, element),
        r <= container@.len(),
        forall|k: int| 0 <= k < r ==> container@[k] < element,
        forall|k: int| r <= k < container@.len() ==> container@[k] >= element,
{
    let mut lo: usize = 0;
    let mut hi: usize = container.len();
    while lo < hi
        invariant
            lo <= hi <= container@.len(),
            sorted(container@),
            forall|k: int| 0 <= k < lo ==> container@[k] < element,
            forall|k: int| hi <= k < container@.len() ==> container@[k] >= element,
        decreases hi - lo,
    {
        let mid = lo + (hi - lo) / 2;
        if container[mid] < element {
            lo = mid + 1;
        } else {
            hi = mid;
        }
    }
    proof {
        lemma_lower_bound_spec(container@, element);
        let w = lower_bound_spec(container@, element);
        if lo < w {
            assert(container@[lo as int] >= element);
            assert(container@[lo as int] < element);
        }
        if lo > w {
            assert(container@[w] < element);
            assert(container@[w] >= element);
        }
    }
    lo
}

} // verus!
