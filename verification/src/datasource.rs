//! Recorded sample lines and the replay pacing rule.
//!
//! A sample line is a comma-separated record: a millisecond timestamp and
//! six fixed-point values, the accelerometer and the magnetometer axes.
//! Surrounding whitespace is ignored and fields past the seventh are
//! tolerated. Replay sleeps between samples by the timestamp delta.

use vstd::prelude::*;

use crate::fixed::{spec_parse_fixed, spec_parse_u64, parse_fixed, parse_u64};

verus! {

/// One accelerometer reading, in micro-units.
#[derive(Clone, Copy, PartialEq, Eq, Structural, Debug)]
pub struct AccData {
    pub x: i64,
    pub y: i64,
    pub z: i64,
}

/// One magnetometer reading, in micro-units.
#[derive(Clone, Copy, PartialEq, Eq, Structural, Debug)]
pub struct MagData {
    pub x: i64,
    pub y: i64,
    pub z: i64,
}

/// One timestamped record of both sensors.
#[derive(Clone, Copy, PartialEq, Eq, Structural, Debug)]
pub struct Data {
    pub timestamp: u64,
    pub acc: AccData,
    pub mag: MagData,
}

impl Default for Data {
    /// The all-zero record.
    fn default() -> (r: Data)
        ensures
            r.timestamp == 0,
            r.acc == (AccData { x: 0, y: 0, z: 0 }),
            r.mag == (MagData { x: 0, y: 0, z: 0 }),
    {
        Data {
            timestamp: 0,
            acc: AccData { x: 0, y: 0, z: 0 },
            mag: MagData { x: 0, y: 0, z: 0 },
        }
    }
}

/// ASCII whitespace, as it occurs around a recorded line.
pub open spec fn is_space(b: u8) -> bool {
    b == 32 || b == 9 || b == 13 || b == 10
}

/// `s` without leading and trailing whitespace.
pub open spec fn spec_trim(s: Seq<u8>) -> Seq<u8>
    decreases s.len(),
{
    if s.len() == 0 {
        s
    } else if is_space(s[0]) {
        spec_trim(s.skip(1))
    } else if is_space(s.last()) {
        spec_trim(s.drop_last())
    } else {
        s
    }
}

/// The fields of `s`, split at every comma.
pub open spec fn split_commas(s: Seq<u8>) -> Seq<Seq<u8>>
    decreases s.len(),
{
    if s.len() == 0 {
        seq![Seq::<u8>::empty()]
    } else if s[0] == 44 {
        seq![Seq::<u8>::empty()] + split_commas(s.skip(1))
    } else {
        let rest = split_commas(s.skip(1));
        seq![seq![s[0]] + rest[0]] + rest.skip(1)
    }
}

/// A split has at least one field.
pub proof fn lemma_split_nonempty(s: Seq<u8>)
    ensures
        split_commas(s).len() >= 1,
    decreases s.len(),
{
    if s.len() > 0 {
        lemma_split_nonempty(s.skip(1));
    }
}

/// Splitting at the first comma: the head field is everything before it,
/// the rest splits the remainder.
pub proof fn lemma_split_at_first_comma(s: Seq<u8>, i: int)
    requires
        0 <= i < s.len(),
        s[i] == 44,
        forall|j: int| 0 <= j < i ==> s[j] != 44,
    ensures
        split_commas(s) =~= seq![s.take(i)] + split_commas(s.skip(i + 1)),
    decreases i,
{
    if i == 0 {
        assert(s.take(0) =~= Seq::<u8>::empty());
    } else {
        lemma_split_at_first_comma(s.skip(1), i - 1);
        lemma_split_nonempty(s.skip(1));
        let rest = split_commas(s.skip(1));
        assert(s.skip(1).skip(i) =~= s.skip(i + 1));
        assert(rest[0] == s.skip(1).take(i - 1));
        assert(rest.skip(1) =~= split_commas(s.skip(i + 1)));
        assert(seq![s[0]] + s.skip(1).take(i - 1) =~= s.take(i));
    }
}

/// A text without commas is a single field.
pub proof fn lemma_split_no_comma(s: Seq<u8>)
    requires
        forall|j: int| 0 <= j < s.len() ==> s[j] != 44,
    ensures
        split_commas(s) =~= seq![s],
    decreases s.len(),
{
    if s.len() == 0 {
        assert(s =~= Seq::<u8>::empty());
    } else {
        assert(s[0] != 44);
        assert(forall|j: int| 0 <= j < s.skip(1).len() ==> s.skip(1)[j] == #[trigger] s[j + 1]);
        lemma_split_no_comma(s.skip(1));
        let rest = split_commas(s.skip(1));
        assert(rest =~= seq![s.skip(1)]);
        assert(rest.skip(1) =~= Seq::<Seq<u8>>::empty());
        assert(seq![s[0]] + s.skip(1) =~= s);
        assert(split_commas(s) =~~= seq![s]);
    }
}

/// What `parse_data_line` returns: the record written by the line, if the
/// trimmed line has at least seven comma-separated fields, of which the
/// first seven are a timestamp and six fixed-point values.
pub open spec fn spec_parse_line(s: Seq<u8>) -> Option<Data> {
    let t = spec_trim(s);
    let fs = split_commas(t);
    if fs.len() >= 7 {
        match (
            spec_parse_u64(fs[0]),
            spec_parse_fixed(fs[1]),
            spec_parse_fixed(fs[2]),
            spec_parse_fixed(fs[3]),
            spec_parse_fixed(fs[4]),
            spec_parse_fixed(fs[5]),
            spec_parse_fixed(fs[6]),
        ) {
            (Some(ts), Some(ax), Some(ay), Some(az), Some(mx), Some(my), Some(mz)) => Some(
                Data {
                    timestamp: ts,
                    acc: AccData { x: ax, y: ay, z: az },
                    mag: MagData { x: mx, y: my, z: mz },
                },
            ),
            _ => None,
        }
    } else {
        None
    }
}

/// Strips leading and trailing whitespace.
fn trim(s: &[u8]) -> (r: &[u8])
    ensures
        r@ == spec_trim(s@),
{
    let mut a: usize = 0;
    let mut b: usize = s.len();
    proof {
        assert(s@.subrange(0, s@.len() as int) =~= s@);
    }
    while a < b && (s[a] == 32 || s[a] == 9 || s[a] == 13 || s[a] == 10)
        invariant
            0 <= a <= b <= s@.len(),
            spec_trim(s@) == spec_trim(s@.subrange(a as int, b as int)),
        decreases b - a,
    {
        proof {
            assert(s@.subrange(a as int, b as int).skip(1) =~= s@.subrange(a as int + 1, b as int));
        }
        a = a + 1;
    }
    while a < b && (s[b - 1] == 32 || s[b - 1] == 9 || s[b - 1] == 13 || s[b - 1] == 10)
        invariant
            0 <= a <= b <= s@.len(),
            spec_trim(s@) == spec_trim(s@.subrange(a as int, b as int)),
            a < b ==> !is_space(s@[a as int]),
        decreases b - a,
    {
        proof {
            assert(s@.subrange(a as int, b as int).drop_last() =~= s@.subrange(
                a as int,
                b as int - 1,
            ));
        }
        b = b - 1;
    }
    vstd::slice::slice_subrange(s, a, b)
}

/// The first comma at or after `from` and before `to`, if any.
fn find_comma(s: &[u8], from: usize, to: usize) -> (r: Option<usize>)
    requires
        from <= to <= s@.len(),
    ensures
        match r {
            Some(k) => from <= k < to && s@[k as int] == 44 && forall|j: int|
                from <= j < k ==> s@[j] != 44,
            None => forall|j: int| from <= j < to ==> s@[j] != 44,
        },
{
    let mut j: usize = from;
    while j < to
        invariant
            from <= j <= to <= s@.len(),
            forall|m: int| from <= m < j ==> s@[m] != 44,
        decreases to - j,
    {
        if s[j] == 44 {
            return Some(j);
        }
        j = j + 1;
    }
    None
}

/// Reads one recorded line into a record. Returns `None` where the line,
/// once trimmed, is not a timestamp and at least six values.
pub fn parse_data_line(line: &[u8]) -> (r: Option<Data>)
    ensures
        r == spec_parse_line(line@),
{
    let t = trim(line);
    let n: usize = t.len();
    let ghost fs = split_commas(t@);
    let mut fields: Vec<&[u8]> = Vec::new();
    let mut pos: usize = 0;
    let mut k: usize = 0;
    proof {
        assert(t@.subrange(0, n as int) =~= t@);
        assert(fs.skip(0) =~= fs);
    }
    while k < 7
        invariant
            0 <= k <= 7,
            pos <= n,
            n == t@.len(),
            t@ == spec_trim(line@),
            fs == split_commas(t@),
            fields@.len() == k,
            k <= fs.len(),
            forall|j: int| 0 <= j < k ==> fields@[j]@ == fs[j],
            k < 7 ==> fs.skip(k as int) =~= split_commas(t@.subrange(pos as int, n as int)),
        decreases 7 - k,
    {
        proof {
            lemma_split_nonempty(t@.subrange(pos as int, n as int));
        }
        match find_comma(t, pos, n) {
            Some(c) => {
                proof {
                    lemma_split_at_first_comma(t@.subrange(pos as int, n as int), c - pos);
                    assert(t@.subrange(pos as int, n as int).take(c - pos) =~= t@.subrange(
                        pos as int,
                        c as int,
                    ));
                    assert(t@.subrange(pos as int, n as int).skip(c - pos + 1) =~= t@.subrange(
                        c as int + 1,
                        n as int,
                    ));
                    assert(fs.skip(k as int)[0] == fs[k as int]);
                    assert(fs.skip(k as int).skip(1) =~= fs.skip(k as int + 1));
                }
                let f = vstd::slice::slice_subrange(t, pos, c);
                fields.push(f);
                pos = c + 1;
            },
            None => {
                proof {
                    lemma_split_no_comma(t@.subrange(pos as int, n as int));
                    assert(fs.skip(k as int).len() == 1);
                    assert(fs.skip(k as int)[0] == fs[k as int]);
                }
                if k < 6 {
                    // fewer than seven fields on the line
                    proof {
                        assert(fs.len() == k + 1 < 7);
                    }
                    return None;
                }
                let f = vstd::slice::slice_subrange(t, pos, n);
                proof {
                    assert(fs.skip(k as int).len() == 1);
                    assert(fs.len() == k + 1);
                    assert(fs[k as int] == fs.skip(k as int)[0]);
                }
                fields.push(f);
                pos = n;
            },
        }
        k = k + 1;
    }
    proof {
        assert(fs.len() >= 7);
    }
    let ts: u64 = match parse_u64(fields[0]) {
        Some(v) => v,
        None => {
            return None;
        },
    };
    let ax: i64 = match parse_fixed(fields[1]) {
        Some(v) => v,
        None => {
            return None;
        },
    };
    let ay: i64 = match parse_fixed(fields[2]) {
        Some(v) => v,
        None => {
            return None;
        },
    };
    let az: i64 = match parse_fixed(fields[3]) {
        Some(v) => v,
        None => {
            return None;
        },
    };
    let mx: i64 = match parse_fixed(fields[4]) {
        Some(v) => v,
        None => {
            return None;
        },
    };
    let my: i64 = match parse_fixed(fields[5]) {
        Some(v) => v,
        None => {
            return None;
        },
    };
    let mz: i64 = match parse_fixed(fields[6]) {
        Some(v) => v,
        None => {
            return None;
        },
    };
    Some(
        Data {
            timestamp: ts,
            acc: AccData { x: ax, y: ay, z: az },
            mag: MagData { x: mx, y: my, z: mz },
        },
    )
}

/// Whether replay skips the line: it holds nothing but whitespace.
pub fn is_blank_line(line: &[u8]) -> (r: bool)
    ensures
        r == (spec_trim(line@).len() == 0),
{
    let t = trim(line);
    t.len() == 0
}

/// How long replay waits before emitting a sample: nothing before the
/// first sample, afterwards the delta from the previous timestamp.
pub fn pacing_delay_ms(prev: u64, current: u64) -> (r: u64)
    requires
        prev != 0 ==> prev <= current,
    ensures
        r == if prev == 0 {
            0u64
        } else {
            (current - prev) as u64
        },
{
    if prev == 0 {
        0
    } else {
        current - prev
    }
}

} // verus!
