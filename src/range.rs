use vstd::prelude::*;

use crate::error::ProxyError;

verus! {

/// A requested span of bytes, both ends inclusive, with `start <= end`.
/// An open-ended request ("from `start` to the end of the file") has
/// `end == u64::MAX`, which clamping later brings down to the file's size.
#[derive(Debug, Clone, Copy, PartialEq, Eq, Structural)]
pub struct ByteRange {
    pub start: u64,
    pub end: u64,
}

/// A span clamped against the size of a file: `start` inclusive,
/// `end_exclusive` exclusive, with `start < end_exclusive <= file size`.
#[derive(Debug, Clone, Copy, PartialEq, Eq, Structural)]
pub struct EffectiveRange {
    pub start: u64,
    pub end_exclusive: u64,
}

pub open spec fn is_digit(c: char) -> bool {
    '0' <= c && c <= '9'
}

pub open spec fn all_digits(s: Seq<char>) -> bool {
    forall|i: int| 0 <= i < s.len() ==> is_digit(#[trigger] s[i])
}

/// The number that a string of decimal digits denotes.
pub open spec fn digits_value(s: Seq<char>) -> nat
    decreases s.len(),
{
    if s.len() == 0 {
        0
    } else {
        digits_value(s.drop_last()) * 10 + (s.last() as u32 - '0' as u32) as nat
    }
}

/// `s` is `<digits>-<digits>` with its delimiter at `k`; the first group
/// is not empty, the second may be (an open-ended range).
pub open spec fn split_at_dash(s: Seq<char>, k: int) -> bool {
    &&& 0 < k < s.len()
    &&& s[k] == '-'
    &&& all_digits(s.subrange(0, k))
    &&& all_digits(s.subrange(k + 1, s.len() as int))
}

pub open spec fn start_text(s: Seq<char>, k: int) -> Seq<char> {
    s.subrange(0, k)
}

pub open spec fn end_text(s: Seq<char>, k: int) -> Seq<char> {
    s.subrange(k + 1, s.len() as int)
}

/// `s`, split at `k`, is a satisfiable range whose offsets fit in 64 bits.
pub open spec fn range_at(s: Seq<char>, k: int) -> bool {
    &&& split_at_dash(s, k)
    &&& digits_value(start_text(s, k)) <= u64::MAX
    &&& end_text(s, k).len() == 0 || {
        &&& digits_value(end_text(s, k)) <= u64::MAX
        &&& digits_value(start_text(s, k)) <= digits_value(end_text(s, k))
    }
}

/// The text is a well-formed range specification.
pub open spec fn is_range_text(s: Seq<char>) -> bool {
    exists|k: int| range_at(s, k)
}

/// The range that a well-formed specification denotes.
pub open spec fn range_of_text(s: Seq<char>) -> ByteRange
    recommends
        is_range_text(s),
{
    let k = choose|k: int| range_at(s, k);
    ByteRange {
        start: digits_value(start_text(s, k)) as u64,
        end: if end_text(s, k).len() == 0 {
            u64::MAX
        } else {
            digits_value(end_text(s, k)) as u64
        },
    }
}

/// What parsing a range specification yields.
pub open spec fn parse_result(s: Seq<char>) -> Result<ByteRange, ProxyError> {
    if is_range_text(s) {
        Ok(range_of_text(s))
    } else {
        Err(ProxyError::InvalidRange)
    }
}

/// What clamping `r` against a file of `file_size` bytes yields.
pub open spec fn clamp_result(r: ByteRange, file_size: u64) -> Result<EffectiveRange, ProxyError> {
    if r.start >= file_size {
        Err(ProxyError::RangeOutOfBounds)
    } else {
        Ok(
            EffectiveRange {
                start: r.start,
                end_exclusive: if r.end < file_size {
                    (r.end + 1) as u64
                } else {
                    file_size
                },
            },
        )
    }
}

/// The bytes of `file` that an effective range covers.
pub open spec fn range_bytes(file: Seq<u8>, e: EffectiveRange) -> Seq<u8> {
    file.subrange(e.start as int, e.end_exclusive as int)
}

impl EffectiveRange {
    pub open spec fn len_spec(self) -> nat {
        (self.end_exclusive - self.start) as nat
    }

    /// The number of bytes the range covers.
    pub fn len(&self) -> (n: u64)
        requires
            self.start <= self.end_exclusive,
        ensures
            n == self.len_spec(),
    {
        self.end_exclusive - self.start
    }
}

impl ByteRange {
    pub open spec fn wf(self) -> bool {
        self.start <= self.end
    }

    /// Clamps the range against a file of `file_size` bytes. Fails with
    /// `RangeOutOfBounds` exactly when `start >= file_size`; otherwise the
    /// exclusive end is `min(end + 1, file_size)`.
    pub fn clamp(&self, file_size: u64) -> (r: Result<EffectiveRange, ProxyError>)
        requires
            self.wf(),
        ensures
            r == clamp_result(*self, file_size),
            r is Err <==> self.start >= file_size,
            r matches Ok(e) ==> self.start == e.start && e.start < e.end_exclusive <= file_size,
    {
        if self.start >= file_size {
            Err(ProxyError::RangeOutOfBounds)
        } else if self.end < file_size {
            Ok(EffectiveRange { start: self.start, end_exclusive: self.end + 1 })
        } else {
            Ok(EffectiveRange { start: self.start, end_exclusive: file_size })
        }
    }
}

proof fn lemma_prefix_value_le(t: Seq<char>, j: int)
    requires
        0 <= j <= t.len(),
        all_digits(t),
    ensures
        digits_value(t.subrange(0, j)) <= digits_value(t),
    decreases t.len(),
{
    if j == t.len() {
        assert(t.subrange(0, j) =~= t);
    } else {
        let u = t.drop_last();
        assert(all_digits(u)) by {
            assert forall|i: int| 0 <= i < u.len() implies is_digit(#[trigger] u[i]) by {
                assert(u[i] == t[i]);
            }
        }
        lemma_prefix_value_le(u, j);
        assert(u.subrange(0, j) =~= t.subrange(0, j));
    }
}

/// A delimiter found after a run of digits that ends at `k` can only be at `k`.
proof fn lemma_dash_unique(s: Seq<char>, k: int, k2: int)
    requires
        0 <= k <= s.len(),
        all_digits(s.subrange(0, k)),
        k < s.len() ==> !is_digit(s[k]),
        split_at_dash(s, k2),
    ensures
        k2 == k,
{
    if k2 < k {
        assert(s.subrange(0, k)[k2] == s[k2]);
    } else if k2 > k {
        assert(s.subrange(0, k2)[k] == s[k]);
    }
}

/// A range specification without a delimiter, with a character that is
/// neither a digit nor the delimiter, or with a start above its end, is
/// refused as an invalid range.
pub proof fn lemma_malformed_range_refused(s: Seq<char>)
    requires
        (forall|i: int| 0 <= i < s.len() ==> s[i] != '-') || (exists|i: int|
            0 <= i < s.len() && !is_digit(#[trigger] s[i]) && s[i] != '-') || (exists|k: int|
            split_at_dash(s, k) && end_text(s, k).len() > 0 && digits_value(start_text(s, k))
                > digits_value(end_text(s, k))),
    ensures
        parse_result(s) == Err::<ByteRange, ProxyError>(ProxyError::InvalidRange),
{
    assert forall|k: int| !range_at(s, k) by {
        if range_at(s, k) {
            if exists|i: int| 0 <= i < s.len() && !is_digit(#[trigger] s[i]) && s[i] != '-' {
                let i = choose|i: int| 0 <= i < s.len() && !is_digit(#[trigger] s[i]) && s[i] != '-';
                if i < k {
                    assert(start_text(s, k)[i] == s[i]);
                } else if i > k {
                    assert(end_text(s, k)[i - k - 1] == s[i]);
                }
            }
            if exists|k2: int|
                split_at_dash(s, k2) && end_text(s, k2).len() > 0 && digits_value(
                    start_text(s, k2),
                ) > digits_value(end_text(s, k2)) {
                let k2 = choose|k2: int|
                    split_at_dash(s, k2) && end_text(s, k2).len() > 0 && digits_value(
                        start_text(s, k2),
                    ) > digits_value(end_text(s, k2));
                lemma_dash_unique(s, k, k2);
            }
        }
    }
}

/// The length of the run of digits that `s` starts with.
fn digit_run(s: &str, n: usize) -> (k: usize)
    requires
        n == s@.len(),
    ensures
        k <= n,
        all_digits(s@.subrange(0, k as int)),
        k < n ==> !is_digit(s@[k as int]),
{
    let mut k: usize = 0;
    while k < n
        invariant
            n == s@.len(),
            k <= n,
            all_digits(s@.subrange(0, k as int)),
        decreases n - k,
    {
        let c = s.get_char(k);
        if !('0' <= c && c <= '9') {
            return k;
        }
        assert forall|i: int| 0 <= i < k + 1 implies is_digit(#[trigger] s@.subrange(0, k + 1)[i]) by {
            if i < k {
                assert(s@.subrange(0, k + 1)[i] == s@.subrange(0, k as int)[i]);
            }
        }
        k = k + 1;
    }
    k
}

/// Whether every character of `s` in `[from, to)` is a digit.
fn digits_between(s: &str, from: usize, to: usize) -> (r: bool)
    requires
        from <= to <= s@.len(),
    ensures
        r == all_digits(s@.subrange(from as int, to as int)),
{
    let mut i: usize = from;
    while i < to
        invariant
            from <= i <= to <= s@.len(),
            all_digits(s@.subrange(from as int, i as int)),
        decreases to - i,
    {
        let c = s.get_char(i);
        if !('0' <= c && c <= '9') {
            assert(s@.subrange(from as int, to as int)[i - from] == c);
            return false;
        }
        assert forall|j: int| 0 <= j < i + 1 - from implies is_digit(
            #[trigger] s@.subrange(from as int, i + 1)[j],
        ) by {
            if j < i - from {
                assert(s@.subrange(from as int, i + 1)[j] == s@.subrange(from as int, i as int)[j]);
            }
        }
        i = i + 1;
    }
    true
}

/// The value of the digits of `s` in `[from, to)`, or `None` where it does
/// not fit in 64 bits.
fn digits_to_u64(s: &str, from: usize, to: usize) -> (r: Option<u64>)
    requires
        from <= to <= s@.len(),
        all_digits(s@.subrange(from as int, to as int)),
    ensures
        match r {
            Some(v) => v == digits_value(s@.subrange(from as int, to as int)),
            None => digits_value(s@.subrange(from as int, to as int)) > u64::MAX,
        },
{
    let ghost t = s@.subrange(from as int, to as int);
    let mut v: u64 = 0;
    let mut i: usize = from;
    assert(s@.subrange(from as int, from as int) =~= Seq::<char>::empty());
    while i < to
        invariant
            from <= i <= to <= s@.len(),
            t == s@.subrange(from as int, to as int),
            all_digits(t),
            v == digits_value(s@.subrange(from as int, i as int)),
        decreases to - i,
    {
        let c = s.get_char(i);
        let ghost next = s@.subrange(from as int, i + 1);
        assert(next.drop_last() =~= s@.subrange(from as int, i as int));
        assert(next.last() == c);
        assert(t[i - from] == c);
        let d: u64 = (c as u32 - '0' as u32) as u64;
        assert(next =~= t.subrange(0, i + 1 - from));
        match v.checked_mul(10) {
            Some(m) => match m.checked_add(d) {
                Some(w) => {
                    v = w;
                },
                None => {
                    proof {
                        lemma_prefix_value_le(t, i + 1 - from);
                    }
                    return None;
                },
            },
            None => {
                proof {
                    lemma_prefix_value_le(t, i + 1 - from);
                }
                return None;
            },
        }
        i = i + 1;
    }
    Some(v)
}

/// Parses a range specification `<start>-<end>` or `<start>-` (open-ended),
/// with decimal offsets. Fails with `InvalidRange` exactly when the text is
/// not of that form, an offset does not fit in 64 bits, or `start > end`.
pub fn parse_range(s: &str) -> (r: Result<ByteRange, ProxyError>)
    ensures
        r == parse_result(s@),
        r is Ok <==> is_range_text(s@),
        r matches Ok(br) ==> br.wf(),
{
    let n = s.unicode_len();
    let k = digit_run(s, n);
    if k == 0 || k >= n || s.get_char(k) != '-' {
        proof {
            assert forall|k2: int| !range_at(s@, k2) by {
                if split_at_dash(s@, k2) {
                    lemma_dash_unique(s@, k as int, k2);
                }
            }
        }
        return Err(ProxyError::InvalidRange);
    }
    assert forall|k2: int| range_at(s@, k2) implies k2 == k by {
        lemma_dash_unique(s@, k as int, k2);
    }
    if !digits_between(s, k + 1, n) {
        return Err(ProxyError::InvalidRange);
    }
    assert(split_at_dash(s@, k as int));
    let start = match digits_to_u64(s, 0, k) {
        Some(v) => v,
        None => {
            return Err(ProxyError::InvalidRange);
        },
    };
    if k + 1 == n {
        assert(range_at(s@, k as int));
        return Ok(ByteRange { start, end: u64::MAX });
    }
    let end = match digits_to_u64(s, k + 1, n) {
        Some(v) => v,
        None => {
            return Err(ProxyError::InvalidRange);
        },
    };
    if start > end {
        return Err(ProxyError::InvalidRange);
    }
    assert(range_at(s@, k as int));
    Ok(ByteRange { start, end })
}

} // verus!
