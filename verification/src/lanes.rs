//! Lane rendering arithmetic: the width and color of each lane code, and the
//! centered offsets of the lane edges around a route centerline.  Offsets
//! are in millimeters; the geometric offsetting itself is left to the
//! caller.

use vstd::prelude::*;

verus! {

/// Why a lane string is rejected.
#[derive(Clone, Copy, Debug, PartialEq, Eq, Structural)]
pub enum LaneError {
    /// A lane code that the renderer does not know.
    UnknownLane(char),
}

/// The width, in millimeters, of the lane a code stands for; `None` for an
/// unknown code.
pub open spec fn lane_width_of(code: char) -> Option<int> {
    match code {
        's' => Some(2000),
        'c' => Some(1500),
        'b' => Some(3250),
        'd' => Some(3000),
        '|' => Some(500),
        _ => None,
    }
}

/// The width and color of one lane code: sidewalk, cycle lane, bus lane,
/// driving lane, or divider.
pub fn lane_config(code: char) -> (r: Result<(&'static str, i64), LaneError>)
    ensures
        r is Ok <==> lane_width_of(code) is Some,
        r matches Ok(cfg) ==> cfg.1 as int == lane_width_of(code)->Some_0,
        r matches Err(e) ==> e == LaneError::UnknownLane(code),
        code == 's' ==> (r matches Ok(cfg) && cfg.0@ == "grey"@),
        code == 'c' ==> (r matches Ok(cfg) && cfg.0@ == "green"@),
        code == 'b' ==> (r matches Ok(cfg) && cfg.0@ == "red"@),
        code == 'd' ==> (r matches Ok(cfg) && cfg.0@ == "black"@),
        code == '|' ==> (r matches Ok(cfg) && cfg.0@ == "yellow"@),
{
    match code {
        's' => Ok(("grey", 2000)),
        'c' => Ok(("green", 1500)),
        'b' => Ok(("red", 3250)),
        'd' => Ok(("black", 3000)),
        '|' => Ok(("yellow", 500)),
        _ => Err(LaneError::UnknownLane(code)),
    }
}

/// The first lane code without a width, if any.
pub open spec fn first_unknown(codes: Seq<char>) -> Option<char>
    decreases codes.len(),
{
    if codes.len() == 0 {
        None
    } else if lane_width_of(codes[0]) is None {
        Some(codes[0])
    } else {
        first_unknown(codes.drop_first())
    }
}

/// The total width of the first `k` lanes.
pub open spec fn prefix_width(codes: Seq<char>, k: int) -> int
    decreases k,
{
    if k <= 0 {
        0
    } else {
        prefix_width(codes, k - 1) + lane_width_of(codes[k - 1])->Some_0
    }
}

/// The total width of all lanes.
pub open spec fn total_width(codes: Seq<char>) -> int {
    prefix_width(codes, codes.len() as int)
}

/// The centered offsets of the lane edges: one edge per lane boundary,
/// `codes.len() + 1` in all, shifted so that the route centerline sits in
/// the middle of the total width.
pub open spec fn lane_offsets_spec(codes: Seq<char>, k: int) -> int {
    prefix_width(codes, k) - total_width(codes) / 2
}

/// Computes the centered lane-edge offsets and the total width of a lane
/// string, in millimeters; rejects the first unknown lane code.
pub fn lane_offsets(codes: &Vec<char>) -> (r: Result<(Vec<i64>, i64), LaneError>)
    requires
        codes@.len() <= 1000000000,
    ensures
        r is Ok <==> first_unknown(codes@) is None,
        r matches Err(e) ==> e == LaneError::UnknownLane(first_unknown(codes@)->Some_0),
        r matches Ok(ok) ==> ok.0@.len() == codes@.len() + 1 && ok.1 as int == total_width(codes@)
            && forall|k: int|
            0 <= k <= codes@.len() ==> (#[trigger] ok.0@[k]) as int == lane_offsets_spec(codes@, k),
{
    let n = codes.len();
    let mut sums: Vec<i64> = Vec::new();
    sums.push(0);
    let mut total: i64 = 0;
    let mut i: usize = 0;
    proof {
        assert(codes@.skip(0) =~= codes@);
    }
    while i < n
        invariant
            0 <= i <= n,
            n == codes@.len(),
            n <= 1000000000,
            sums@.len() == i as int + 1,
            forall|k: int| 0 <= k <= i ==> (#[trigger] sums@[k]) as int == prefix_width(codes@, k),
            forall|k: int| 0 <= k <= i ==> 0 <= (#[trigger] sums@[k]) <= total,
            total as int == prefix_width(codes@, i as int),
            0 <= total <= 3250 * (i as int),
            forall|k: int| 0 <= k < i ==> lane_width_of(#[trigger] codes@[k]) is Some,
            first_unknown(codes@.skip(i as int)) == first_unknown(codes@),
        decreases n - i,
    {
        let code = codes[i];
        proof {
            let suf = codes@.skip(i as int);
            assert(suf[0] == codes@[i as int]);
            assert(suf.drop_first() =~= codes@.skip(i as int + 1));
        }
        match lane_config(code) {
            Ok(cfg) => {
                let w = cfg.1;
                total = total + w;
                sums.push(total);
            },
            Err(e) => {
                proof {
                    assert(first_unknown(codes@.skip(i as int)) == Some(code));
                }
                return Err(e);
            },
        }
        i = i + 1;
    }
    proof {
        assert(codes@.skip(n as int) =~= Seq::<char>::empty());
    }
    let half: i64 = ((total as u64) / 2) as i64;
    assert(half as int == total_width(codes@) / 2);
    let mut out: Vec<i64> = Vec::new();
    let mut k: usize = 0;
    while k < n + 1
        invariant
            0 <= k <= n + 1,
            n == codes@.len(),
            n <= 1000000000,
            sums@.len() == n as int + 1,
            forall|m: int| 0 <= m <= n ==> (#[trigger] sums@[m]) as int == prefix_width(codes@, m),
            0 <= total,
            total as int == total_width(codes@),
            0 <= half <= total,
            half as int == total_width(codes@) / 2,
            forall|m: int| 0 <= m <= n ==> 0 <= (#[trigger] sums@[m]) <= total,
            out@.len() == k as int,
            forall|m: int|
                0 <= m < k ==> (#[trigger] out@[m]) as int == lane_offsets_spec(codes@, m),
        decreases n + 1 - k,
    {
        let v = sums[k];
        out.push(v - half);
        k = k + 1;
    }
    Ok((out, total))
}

} // verus!
