//! Logic of the example modules that run on devices: the buffers they hand to the host's
//! remote procedure call import, and how the counter reads the datalist's reply.
use vstd::prelude::*;
use vstd::string::{StrSliceExecFns, StringSliceAdditionalSpecFns};

verus! {

/// Relies on Vec::capacity, for the number of elements the buffer holds without reallocating,
/// which is never below its length.
#[verifier::external_body]
fn capacity_of(bytes: &Vec<u8>) -> (r: usize)
    ensures
        r >= bytes@.len(),
{
    bytes.capacity()
}

/// Hands `bytes` over with their length as the host's 32-bit length, and the buffer's capacity.
pub fn ptrs_of(bytes: Vec<u8>) -> (r: (Vec<u8>, u32, usize))
    requires
        bytes@.len() <= u32::MAX,
    ensures
        r.0@ == bytes@,
        r.1 == bytes@.len(),
        r.2 >= bytes@.len(),
{
    let n = bytes.len();
    let cap = capacity_of(&bytes);
    (bytes, n as u32, cap)
}

/// Hands `bytes` over as a buffer that the host may write into, with its length as the host's
/// 32-bit length, and its capacity.
pub fn mut_ptrs_of(bytes: Vec<u8>) -> (r: (Vec<u8>, u32, usize))
    requires
        bytes@.len() <= u32::MAX,
    ensures
        r.0@ == bytes@,
        r.1 == bytes@.len(),
        r.2 >= bytes@.len(),
{
    let n = bytes.len();
    let cap = capacity_of(&bytes);
    (bytes, n as u32, cap)
}

/// The buffer that a call both reads its input from and writes its output into: zeros, as long
/// as the larger of the input and the expected output, with the input at the start.
pub open spec fn in_out_buffer(input: Option<Seq<u8>>, expected_output_size: nat) -> Seq<u8> {
    match input {
        None => Seq::new(expected_output_size, |i: int| 0u8),
        Some(x) => {
            let n = if x.len() > expected_output_size { x.len() } else { expected_output_size };
            Seq::new(n, |i: int| if i < x.len() { x[i] } else { 0u8 })
        },
    }
}

pub open spec fn opt_bytes(input: &Option<Vec<u8>>) -> Option<Seq<u8>> {
    match input {
        Some(x) => Some(x@),
        None => None,
    }
}

/// Prepares the arguments of a remote procedure call: the module name, the function name and
/// the input/output buffer, each with its length.
pub fn prepare_args(module_name: &str, function_name: &str, input: Option<Vec<u8>>, expected_output_size: usize)
    -> (r: (Vec<u8>, u32, Vec<u8>, u32, Vec<u8>, u32, usize))
    requires
        module_name.spec_bytes().len() <= u32::MAX,
        function_name.spec_bytes().len() <= u32::MAX,
        expected_output_size <= u32::MAX,
        input matches Some(x) ==> x@.len() <= u32::MAX,
    ensures
        r.0@ == module_name.spec_bytes(),
        r.1 == module_name.spec_bytes().len(),
        r.2@ == function_name.spec_bytes(),
        r.3 == function_name.spec_bytes().len(),
        r.4@ == in_out_buffer(opt_bytes(&input), expected_output_size as nat),
        r.5 == r.4@.len(),
        r.6 >= r.4@.len(),
{
    let (m, m_len, _) = ptrs_of(module_name.as_bytes_vec());
    let (f, f_len, _) = ptrs_of(function_name.as_bytes_vec());
    let ghost iv = opt_bytes(&input);
    let n: usize = match &input {
        Some(x) => if x.len() > expected_output_size { x.len() } else { expected_output_size },
        None => expected_output_size,
    };
    let mut buffer: Vec<u8> = Vec::new();
    let mut i: usize = 0;
    while i < n
        invariant
            i <= n,
            n <= u32::MAX,
            iv == opt_bytes(&input),
            n == in_out_buffer(iv, expected_output_size as nat).len(),
            buffer@ == in_out_buffer(iv, expected_output_size as nat).take(i as int),
        decreases n - i,
    {
        let b: u8 = match &input {
            Some(x) => if i < x.len() { x[i] } else { 0u8 },
            None => 0u8,
        };
        buffer.push(b);
        i = i + 1;
        assert(buffer@ =~= in_out_buffer(iv, expected_output_size as nat).take(i as int));
    }
    assert(buffer@ =~= in_out_buffer(iv, expected_output_size as nat));
    let (io, io_len, io_cap) = mut_ptrs_of(buffer);
    (m, m_len, f, f_len, io, io_len, io_cap)
}

/// Whitespace as `char::is_whitespace` has it among ASCII bytes.
pub open spec fn is_space(b: u8) -> bool {
    b == 32 || (9 <= b && b <= 13)
}

pub open spec fn trim_start(s: Seq<u8>) -> Seq<u8>
    decreases s.len(),
{
    if s.len() > 0 && is_space(s[0]) {
        trim_start(s.drop_first())
    } else {
        s
    }
}

pub open spec fn trim_end(s: Seq<u8>) -> Seq<u8>
    decreases s.len(),
{
    if s.len() > 0 && is_space(s.last()) {
        trim_end(s.drop_last())
    } else {
        s
    }
}

pub open spec fn trim(s: Seq<u8>) -> Seq<u8> {
    trim_end(trim_start(s))
}

/// Index of the last byte of `s` that is `a` or `b`.
pub open spec fn last_of(s: Seq<u8>, a: u8, b: u8) -> Option<int>
    decreases s.len(),
{
    if s.len() == 0 {
        None
    } else if s.last() == a || s.last() == b {
        Some(s.len() - 1)
    } else {
        last_of(s.drop_last(), a, b)
    }
}

pub open spec fn is_digit(b: u8) -> bool {
    48 <= b && b <= 57
}

/// The number that the decimal digits `s` write.
pub open spec fn digits_value(s: Seq<u8>) -> nat
    decreases s.len(),
{
    if s.len() == 0 {
        0
    } else {
        digits_value(s.drop_last()) * 10 + (s.last() - 48) as nat
    }
}

/// What `u32::from_str` makes of `s`: an optional `+` and at least one decimal digit, with a
/// value that fits.
pub open spec fn unsigned_digits(s: Seq<u8>) -> Seq<u8> {
    if s.len() > 0 && s[0] == 43 { s.drop_first() } else { s }
}

pub open spec fn parse_u32(s: Seq<u8>) -> Option<u32> {
    let d = unsigned_digits(s);
    if d.len() == 0 || exists|i: int| 0 <= i < d.len() && !is_digit(#[trigger] d[i]) {
        None
    } else if digits_value(d) > u32::MAX {
        None
    } else {
        Some(digits_value(d) as u32)
    }
}

/// The last value of a JSON array reply such as `{"result":[ 10, 100]}`: the text after the last
/// `,` or `[`, trimmed, up to its last `]`, is empty (no value) or, trimmed, a `u32`. `None`
/// where the reply does not have that shape.
pub open spec fn last_value(s: Seq<u8>) -> Option<Option<u32>> {
    match last_of(s, 44, 91) {
        None => None,
        Some(a) => {
            let t = trim(s.skip(a + 1));
            match last_of(t, 93, 93) {
                None => None,
                Some(b) => {
                    let x = t.take(b);
                    if x.len() == 0 {
                        Some(None)
                    } else {
                        match parse_u32(trim(x)) {
                            Some(v) => Some(Some(v)),
                            None => None,
                        }
                    }
                },
            }
        },
    }
}

/// Bounds of `s[lo..hi]` with the whitespace at both ends left out.
fn trim_bounds(s: &Vec<u8>, lo: usize, hi: usize) -> (r: (usize, usize))
    requires
        lo <= hi <= s@.len(),
    ensures
        lo <= r.0 <= r.1 <= hi,
        s@.subrange(r.0 as int, r.1 as int) == trim(s@.subrange(lo as int, hi as int)),
{
    let mut i = lo;
    while i < hi && (s[i] == 32 || (9 <= s[i] && s[i] <= 13))
        invariant
            lo <= i <= hi <= s@.len(),
            trim_start(s@.subrange(lo as int, hi as int)) == trim_start(s@.subrange(i as int, hi as int)),
        decreases hi - i,
    {
        assert(s@.subrange(i as int, hi as int).drop_first() =~= s@.subrange(i + 1, hi as int));
        i = i + 1;
    }
    assert(trim_start(s@.subrange(i as int, hi as int)) == s@.subrange(i as int, hi as int));
    let mut j = hi;
    while j > i && (s[j - 1] == 32 || (9 <= s[j - 1] && s[j - 1] <= 13))
        invariant
            lo <= i <= j <= hi <= s@.len(),
            trim_end(s@.subrange(i as int, hi as int)) == trim_end(s@.subrange(i as int, j as int)),
        decreases j - i,
    {
        assert(s@.subrange(i as int, j as int).drop_last() =~= s@.subrange(i as int, j - 1));
        j = j - 1;
    }
    (i, j)
}

/// Position of the last byte of `s[lo..hi]` that is `a` or `b`.
fn last_of_in(s: &Vec<u8>, lo: usize, hi: usize, a: u8, b: u8) -> (r: Option<usize>)
    requires
        lo <= hi <= s@.len(),
    ensures
        match last_of(s@.subrange(lo as int, hi as int), a, b) {
            Some(k) => r matches Some(p) && p == lo + k && lo <= p < hi,
            None => r is None,
        },
{
    let mut j = hi;
    while j > lo
        invariant
            lo <= j <= hi <= s@.len(),
            last_of(s@.subrange(lo as int, hi as int), a, b) == last_of(s@.subrange(lo as int, j as int), a, b),
        decreases j - lo,
    {
        assert(s@.subrange(lo as int, j as int).drop_last() =~= s@.subrange(lo as int, j - 1));
        if s[j - 1] == a || s[j - 1] == b {
            return Some(j - 1);
        }
        j = j - 1;
    }
    None
}

proof fn lemma_digits_value_grows(s: Seq<u8>, i: int)
    requires
        0 <= i <= s.len(),
    ensures
        digits_value(s.take(i)) <= digits_value(s),
    decreases s.len() - i,
{
    if i < s.len() {
        lemma_digits_value_grows(s, i + 1);
        assert(s.take(i + 1).drop_last() =~= s.take(i));
    } else {
        assert(s.take(i) =~= s);
    }
}

/// `u32::from_str` on `s[lo..hi]`.
fn parse_u32_in(s: &Vec<u8>, lo: usize, hi: usize) -> (r: Option<u32>)
    requires
        lo <= hi <= s@.len(),
    ensures
        r == parse_u32(s@.subrange(lo as int, hi as int)),
{
    let ghost t = s@.subrange(lo as int, hi as int);
    let start = if lo < hi && s[lo] == 43 { lo + 1 } else { lo };
    let ghost d = s@.subrange(start as int, hi as int);
    assert(d =~= unsigned_digits(t));
    if start == hi {
        return None;
    }
    let mut i = start;
    while i < hi
        invariant
            start <= i <= hi <= s@.len(),
            t == s@.subrange(lo as int, hi as int),
            d == s@.subrange(start as int, hi as int),
            d == unsigned_digits(t),
            forall|k: int| 0 <= k < i - start ==> is_digit(#[trigger] d[k]),
        decreases hi - i,
    {
        if !(48 <= s[i] && s[i] <= 57) {
            assert(!is_digit(d[i - start]));
            assert(unsigned_digits(t)[i - start] == d[i - start]);
            return None;
        }
        i = i + 1;
    }
    let mut v: u64 = 0;
    let mut k = start;
    while k < hi
        invariant
            start <= k <= hi <= s@.len(),
            t == s@.subrange(lo as int, hi as int),
            d == s@.subrange(start as int, hi as int),
            d == unsigned_digits(t),
            forall|q: int| 0 <= q < d.len() ==> is_digit(#[trigger] d[q]),
            v == digits_value(d.take(k - start)),
            v <= u32::MAX,
        decreases hi - k,
    {
        assert(d.take(k - start + 1).drop_last() =~= d.take(k - start));
        assert(is_digit(d[k - start]));
        let next = v * 10 + (s[k] - 48) as u64;
        assert(d.take(k - start + 1).last() == s@[k as int]);
        assert(next == digits_value(d.take(k - start + 1)));
        if next > u32::MAX as u64 {
            proof {
                lemma_digits_value_grows(d, k - start + 1);
                assert(unsigned_digits(t) == d);
            }
            return None;
        }
        v = next;
        k = k + 1;
    }
    assert(d.take(k - start) =~= d);
    assert(unsigned_digits(t) == d);
    Some(v as u32)
}

/// The last value of a JSON array reply (see `last_value`).
pub fn parse_last_value(json_bytes: &Vec<u8>) -> (r: Option<Option<u32>>)
    ensures
        r == last_value(json_bytes@),
{
    let s = json_bytes;
    let n = s.len();
    assert(s@.subrange(0, n as int) =~= s@);
    let a = match last_of_in(s, 0, n, 44, 91) {
        Some(a) => a,
        None => return None,
    };
    assert(s@.subrange(a + 1, n as int) =~= s@.skip(a + 1));
    let (tl, th) = trim_bounds(s, a + 1, n);
    let ghost t = s@.subrange(tl as int, th as int);
    let b = match last_of_in(s, tl, th, 93, 93) {
        Some(b) => b,
        None => return None,
    };
    assert(s@.subrange(tl as int, b as int) =~= t.take(b - tl));
    if b == tl {
        return Some(None);
    }
    let (vl, vh) = trim_bounds(s, tl, b);
    match parse_u32_in(s, vl, vh) {
        Some(v) => Some(Some(v)),
        None => None,
    }
}

/// The counter's next value from the datalist's reply: one past the last value, or zero where
/// the list is empty.
pub fn update_value(read_res: Result<Vec<u8>, u32>) -> (r: u32)
    requires
        read_res matches Ok(bytes) && last_value(bytes@) is Some && last_value(bytes@) != Some(Some(u32::MAX)),
    ensures
        read_res matches Ok(bytes) && r == match last_value(bytes@) {
            Some(Some(v)) => (v + 1) as u32,
            _ => 0u32,
        },
{
    match read_res {
        Ok(json_bytes) => match parse_last_value(&json_bytes) {
            Some(Some(v)) => v + 1,
            _ => 0,
        },
        Err(_) => 0,
    }
}

/// The value that the datalist reports after a push, where the push went through.
pub fn handle_push(push_res: Result<Vec<u8>, u32>) -> (r: Option<i32>)
    requires
        push_res matches Ok(bytes) ==> last_value(bytes@) is Some,
    ensures
        r == match push_res {
            Ok(bytes) => match last_value(bytes@) {
                Some(Some(v)) => Some(v as i32),
                _ => None,
            },
            Err(_) => None,
        },
{
    match push_res {
        Ok(x_bytes) => match parse_last_value(&x_bytes) {
            Some(Some(v)) => Some(v as i32),
            _ => None,
        },
        Err(_) => None,
    }
}

} // verus!
