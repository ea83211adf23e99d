use crate::error::DeviceError;
use crate::text::push_char;
use std::collections::HashSet;
use vstd::prelude::*;

verus! {

broadcast use vstd::std_specs::hash::group_hash_axioms;

/// Letters a drive name may carry after its `vd` prefix (a disk name holds 32
/// characters at most).
pub const MAX_DRIVE_SUFFIX_LEN: usize = 30;

/// The letter for `d < 26`.
pub open spec fn drive_letter(d: int) -> char {
    ((97 + d) as u8) as char
}

/// The letters that name drive `m - 1` (so `m == 0` names nothing): base 26
/// with biased digits, most significant first.
pub open spec fn drive_suffix(m: nat) -> Seq<char>
    decreases m,
{
    if m == 0 {
        Seq::empty()
    } else {
        drive_suffix(((m - 1) / 26) as nat).push(drive_letter((m - 1) % 26))
    }
}

/// The virtio-blk name of drive `index >= 0`.
pub open spec fn drive_name(index: int) -> Seq<char> {
    seq!['v', 'd'] + drive_suffix((index + 1) as nat)
}

fn drive_suffix_len(m: u64) -> (r: u64)
    ensures
        r == drive_suffix(m as nat).len(),
    decreases m,
{
    if m == 0 {
        0
    } else {
        let r = drive_suffix_len((m - 1) / 26);
        proof {
            lemma_drive_suffix_short(((m - 1) / 26) as nat);
        }
        r + 1
    }
}

proof fn lemma_drive_suffix_short(m: nat)
    ensures
        drive_suffix(m).len() <= m,
    decreases m,
{
    if m > 0 {
        lemma_drive_suffix_short(((m - 1) / 26) as nat);
    }
}

fn push_drive_suffix(s: &mut String, m: u64)
    ensures
        final(s)@ == old(s)@ + drive_suffix(m as nat),
    decreases m,
{
    if m > 0 {
        push_drive_suffix(s, (m - 1) / 26);
        let d: u8 = ((m - 1) % 26) as u8;
        push_char(s, (97u8 + d) as char);
    }
    assert(final(s)@ =~= old(s)@ + drive_suffix(m as nat));
}

/// The name under which a virtio-blk disk with this index appears in the guest:
/// `vd` followed by the biased base-26 letters of the index.
pub fn get_virt_drive_name(index: i32) -> (r: Result<String, DeviceError>)
    ensures
        index < 0 ==> r == Err::<String, DeviceError>(DeviceError::NegativeIndex),
        index >= 0 && drive_suffix((index + 1) as nat).len() > MAX_DRIVE_SUFFIX_LEN
            ==> r == Err::<String, DeviceError>(DeviceError::IndexOverflow),
        index >= 0 && drive_suffix((index + 1) as nat).len() <= MAX_DRIVE_SUFFIX_LEN ==> (
        r is Ok && r->Ok_0@ == drive_name(index as int)),
{
    if index < 0 {
        return Err(DeviceError::NegativeIndex);
    }
    let m: u64 = index as u64 + 1;
    if drive_suffix_len(m) > MAX_DRIVE_SUFFIX_LEN as u64 {
        return Err(DeviceError::IndexOverflow);
    }
    let mut name = String::new();
    push_char(&mut name, 'v');
    push_char(&mut name, 'd');
    push_drive_suffix(&mut name, m);
    assert(name@ =~= drive_name(index as int));
    Ok(name)
}

/// The drive name of a block ordinal; every ordinal below `u64::MAX` fits.
pub fn virt_drive_name_of(index: u64) -> (r: String)
    requires
        index < u64::MAX,
    ensures
        r@ == drive_name(index as int),
{
    let mut name = String::new();
    push_char(&mut name, 'v');
    push_char(&mut name, 'd');
    push_drive_suffix(&mut name, index + 1);
    assert(name@ =~= drive_name(index as int));
    name
}

/// Every ordinal below `u64::MAX` fits in a drive name.
pub proof fn lemma_u64_drive_names_fit(index: u64)
    requires
        index < u64::MAX,
    ensures
        drive_suffix((index + 1) as nat).len() <= MAX_DRIVE_SUFFIX_LEN,
{
    reveal_with_fuel(pow26, 15);
    lemma_drive_suffix_bound((index + 1) as nat, 14);
}

/// Every index that an `i32` can hold fits in a drive name.
pub proof fn lemma_i32_drive_names_fit(index: i32)
    requires
        index >= 0,
    ensures
        drive_suffix((index + 1) as nat).len() <= MAX_DRIVE_SUFFIX_LEN,
{
    reveal_with_fuel(pow26, 8);
    lemma_drive_suffix_bound((index + 1) as nat, 7);
}

proof fn lemma_drive_suffix_bound(m: nat, k: nat)
    requires
        m < pow26(k),
    ensures
        drive_suffix(m).len() <= k,
    decreases m,
{
    if m > 0 {
        let k1 = (k - 1) as nat;
        assert(pow26(k) == 26 * pow26(k1));
        let p = pow26(k1);
        assert((m - 1) / 26 < p) by (nonlinear_arith)
            requires
                m < 26 * p,
                m >= 1,
        ;
        lemma_drive_suffix_bound(((m - 1) / 26) as nat, k1);
    }
}

spec fn pow26(k: nat) -> nat
    decreases k,
{
    if k == 0 {
        1
    } else {
        26 * pow26((k - 1) as nat)
    }
}

/// A decimal digit.
pub open spec fn is_decimal_digit(c: char) -> bool {
    '0' <= c && c <= '9'
}

/// The value of a run of decimal digits, most significant first.
pub open spec fn digits_value(s: Seq<char>) -> nat
    decreases s.len(),
{
    if s.len() == 0 {
        0
    } else {
        digits_value(s.drop_last()) * 10 + ((s.last() as u32) - 48) as nat
    }
}

/// The text with one leading `+` taken off, if it has one.
pub open spec fn unsigned_body(s: Seq<char>) -> Seq<char> {
    if s.len() > 0 && s[0] == '+' {
        s.drop_first()
    } else {
        s
    }
}

/// Every character is a decimal digit.
pub open spec fn all_decimal_digits(s: Seq<char>) -> bool {
    forall|i: int| 0 <= i < s.len() ==> is_decimal_digit(#[trigger] s[i])
}

/// What a `u32` reads as from text: an optional `+`, then one or more decimal
/// digits whose value fits in 32 bits.
pub open spec fn parse_u32(s: Seq<char>) -> Option<u32> {
    let body = unsigned_body(s);
    if body.len() > 0 && all_decimal_digits(body) && digits_value(body) <= u32::MAX {
        Some(digits_value(body) as u32)
    } else {
        None
    }
}

proof fn lemma_digits_value_monotone(s: Seq<char>, n: int)
    requires
        0 <= n <= s.len(),
        forall|i: int| 0 <= i < s.len() ==> is_decimal_digit(#[trigger] s[i]),
    ensures
        digits_value(s.subrange(0, n)) <= digits_value(s),
    decreases s.len() - n,
{
    if n < s.len() {
        lemma_digits_value_monotone(s, n + 1);
        let t = s.subrange(0, n + 1);
        assert(t.drop_last() =~= s.subrange(0, n));
    } else {
        assert(s.subrange(0, n) =~= s);
    }
}

/// Reads a thread id from a directory entry name.
pub fn parse_thread_id(name: &str) -> (r: Option<u32>)
    ensures
        r == parse_u32(name@),
{
    let len = name.unicode_len();
    let mut start: usize = 0;
    if len > 0 && name.get_char(0) == '+' {
        start = 1;
    }
    let ghost body = unsigned_body(name@);
    assert(body =~= name@.subrange(start as int, len as int));
    if start >= len {
        return None;
    }
    let mut value: u64 = 0;
    let mut i: usize = start;
    while i < len
        invariant
            start <= i <= len,
            len == name@.len(),
            body == unsigned_body(name@),
            body =~= name@.subrange(start as int, len as int),
            forall|j: int| 0 <= j < i - start ==> is_decimal_digit(#[trigger] body[j]),
            value == digits_value(body.subrange(0, i - start)),
            value <= u32::MAX,
        decreases len - i,
    {
        let c = name.get_char(i);
        if !('0' <= c && c <= '9') {
            assert(body[i - start] == c);
            assert(!is_decimal_digit(body[i - start]));
            assert(!all_decimal_digits(body));
            return None;
        }
        let d: u64 = (c as u32 - 48) as u64;
        let next: u64 = value * 10 + d;
        proof {
            let t = body.subrange(0, i + 1 - start);
            assert(t.drop_last() =~= body.subrange(0, i - start));
            assert(t.last() == c);
        }
        if next > u32::MAX as u64 {
            proof {
                if all_decimal_digits(body) {
                    lemma_digits_value_monotone(body, i + 1 - start);
                    assert(digits_value(body) > u32::MAX);
                }
            }
            return None;
        }
        value = next;
        i = i + 1;
    }
    assert(body.subrange(0, i - start) =~= body);
    Some(value as u32)
}

/// The thread ids among the entries of a task directory: every entry name that
/// reads as a `u32`.
pub fn get_child_threads(entries: &Vec<String>) -> (r: HashSet<u32>)
    ensures
        r@ == Set::new(
            |t: u32| exists|i: int| 0 <= i < entries@.len() && parse_u32(#[trigger] entries@[i]@) == Some(t),
        ),
{
    let mut result: HashSet<u32> = HashSet::new();
    let mut i: usize = 0;
    while i < entries.len()
        invariant
            i <= entries@.len(),
            result@ == Set::new(
                |t: u32| exists|j: int| 0 <= j < i && parse_u32(#[trigger] entries@[j]@) == Some(t),
            ),
        decreases entries@.len() - i,
    {
        let parsed = parse_thread_id(entries[i].as_str());
        if let Some(tid) = parsed {
            result.insert(tid);
        }
        proof {
            assert forall|t: u32| #[trigger] result@.contains(t) <==> exists|j: int|
                0 <= j < i + 1 && parse_u32(#[trigger] entries@[j]@) == Some(t) by {
                if exists|j: int| 0 <= j < i + 1 && parse_u32(#[trigger] entries@[j]@) == Some(t) {
                    let j = choose|j: int| 0 <= j < i + 1 && parse_u32(#[trigger] entries@[j]@) == Some(t);
                    if j < i {
                        assert(result@.contains(t));
                    }
                }
            }
            assert(result@ =~= Set::new(
                |t: u32| exists|j: int| 0 <= j < i + 1 && parse_u32(#[trigger] entries@[j]@) == Some(t),
            ));
        }
        i = i + 1;
    }
    result
}

} // verus!
