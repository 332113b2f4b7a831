//! Displays as the library sees them: their modes, their vibrance range, and
//! how one enumerated device becomes a `DisplayInfo`.
use vstd::prelude::*;
use crate::text::{u16_to_string, wide_buffer_text};

verus! {

/// A display mode: pixel width, pixel height and refresh rate in hertz.
#[derive(Clone, Copy, Debug, PartialEq, Eq, Structural)]
pub struct Resolution {
    pub width: u32,
    pub height: u32,
    pub refresh_rate: u32,
}

/// Digital-vibrance levels of a display as the NVIDIA driver reports them.
#[derive(Clone, Copy, Debug, PartialEq, Eq, Structural)]
pub struct DvcLevels {
    pub current_level: i32,
    pub min_level: i32,
    pub max_level: i32,
}

/// A connected, active display.
#[derive(Clone, Debug, PartialEq)]
pub struct DisplayInfo {
    /// Device name, such as `\\.\DISPLAY1`.
    pub id: String,
    /// Friendly name of the adapter.
    pub name: String,
    pub is_primary: bool,
    pub current_resolution: Resolution,
    /// Distinct supported modes, largest first.
    pub supported_resolutions: Vec<Resolution>,
    pub min_vibrance: i32,
    pub max_vibrance: i32,
    pub current_vibrance: i32,
}

/// `DISPLAY_DEVICE_ACTIVE`
pub const DISPLAY_DEVICE_ACTIVE: u32 = 0x0000_0001;
/// `DISPLAY_DEVICE_PRIMARY_DEVICE`
pub const DISPLAY_DEVICE_PRIMARY_DEVICE: u32 = 0x0000_0004;

/// `a` comes before `b` in the list of modes: larger width, then larger height,
/// then larger refresh rate.
pub open spec fn mode_before(a: Resolution, b: Resolution) -> bool {
    ||| a.width > b.width
    ||| (a.width == b.width && a.height > b.height)
    ||| (a.width == b.width && a.height == b.height && a.refresh_rate > b.refresh_rate)
}

/// Every mode comes strictly before the ones after it, so no mode occurs twice.
pub open spec fn strictly_descending(s: Seq<Resolution>) -> bool {
    forall|i: int, j: int| 0 <= i < j < s.len() ==> mode_before(#[trigger] s[i], #[trigger] s[j])
}

/// The all-zero mode that a display reports when its current mode cannot be read.
pub open spec fn unknown_resolution() -> Resolution {
    Resolution { width: 0, height: 0, refresh_rate: 0 }
}

fn mode_before_exec(a: &Resolution, b: &Resolution) -> (r: bool)
    ensures
        r == mode_before(*a, *b),
{
    a.width > b.width || (a.width == b.width && a.height > b.height) || (a.width == b.width
        && a.height == b.height && a.refresh_rate > b.refresh_rate)
}

/// The supported-mode list of a display: the distinct modes it enumerates,
/// largest first (by width, then height, then refresh rate).
pub fn supported_resolution_list(modes: &Vec<Resolution>) -> (r: Vec<Resolution>)
    ensures
        strictly_descending(r@),
        forall|m: Resolution| r@.contains(m) <==> modes@.contains(m),
{
    let mut out: Vec<Resolution> = Vec::new();
    let n = modes.len();
    for i in 0..n
        invariant
            n == modes@.len(),
            strictly_descending(out@),
            forall|m: Resolution| out@.contains(m) <==> modes@.take(i as int).contains(m),
    {
        let m = modes[i];
        let len = out.len();
        let mut pos: usize = 0;
        while pos < len && mode_before_exec(&out[pos], &m)
            invariant
                pos <= len,
                len == out@.len(),
                forall|j: int| 0 <= j < pos ==> mode_before(#[trigger] out@[j], m),
            decreases len - pos,
        {
            pos = pos + 1;
        }
        let ghost old_out = out@;
        assert(modes@.take(i + 1) =~= modes@.take(i as int).push(m));
        if pos < len && out[pos] == m {
            assert(old_out.contains(m));
        } else {
            out.insert(pos, m);
            assert forall|a: int, b: int| 0 <= a < b < out@.len() implies mode_before(
                #[trigger] out@[a],
                #[trigger] out@[b],
            ) by {
                if b < pos {
                } else if a < pos && b == pos {
                } else if a < pos {
                    assert(out@[b] == old_out[b - 1]);
                } else if a == pos {
                    assert(out@[b] == old_out[b - 1]);
                    assert(!mode_before(old_out[pos as int], m));
                    assert(old_out[pos as int] != m);
                    if b - 1 > pos {
                        assert(mode_before(old_out[pos as int], old_out[b - 1]));
                    }
                } else {
                    assert(out@[a] == old_out[a - 1]);
                    assert(out@[b] == old_out[b - 1]);
                }
            }
            assert forall|x: Resolution| out@.contains(x) <==> modes@.take(i + 1).contains(x) by {
                if out@.contains(x) {
                    let k = choose|k: int| 0 <= k < out@.len() && out@[k] == x;
                    if k < pos {
                        assert(old_out[k] == x);
                    } else if k > pos {
                        assert(old_out[k - 1] == x);
                    }
                }
                if old_out.contains(x) {
                    let k = choose|k: int| 0 <= k < old_out.len() && old_out[k] == x;
                    if k < pos {
                        assert(out@[k] == x);
                    } else {
                        assert(out@[k + 1] == x);
                    }
                }
                if x == m {
                    assert(out@[pos as int] == x);
                }
                let pre = modes@.take(i as int);
                let post = modes@.take(i + 1);
                if post.contains(x) {
                    let k = choose|k: int| 0 <= k < post.len() && post[k] == x;
                    if k < i {
                        assert(pre[k] == x);
                    }
                }
                if pre.contains(x) {
                    let k = choose|k: int| 0 <= k < pre.len() && pre[k] == x;
                    assert(post[k] == x);
                }
                if x == m {
                    assert(post[i as int] == x);
                }
            }
        }
    }
    assert(modes@.take(n as int) =~= modes@);
    out
}

/// The vibrance levels of a display as reported: those of the driver, or all
/// zero when the driver gives none.
pub open spec fn reported_levels(dvc: Option<DvcLevels>) -> DvcLevels {
    match dvc {
        Some(l) => l,
        None => DvcLevels { current_level: 0, min_level: 0, max_level: 0 },
    }
}

/// Builds the record of one enumerated display device: `None` when the device
/// is not active; otherwise its name and adapter name read from their wide
/// buffers, whether it is the primary device, its current mode (all zero when
/// unknown), its distinct supported modes largest first, and its vibrance
/// levels (all zero when the driver reports none).
pub fn display_info_from_device(
    device_name: &[u16],
    device_string: &[u16],
    state_flags: u32,
    current_mode: Option<Resolution>,
    modes: &Vec<Resolution>,
    dvc: Option<DvcLevels>,
) -> (r: Option<DisplayInfo>)
    ensures
        r.is_some() == (state_flags & DISPLAY_DEVICE_ACTIVE != 0),
        r matches Some(d) ==> {
            &&& d.id@ == wide_buffer_text(device_name@)
            &&& d.name@ == wide_buffer_text(device_string@)
            &&& d.is_primary == (state_flags & DISPLAY_DEVICE_PRIMARY_DEVICE != 0)
            &&& d.current_resolution == (match current_mode {
                Some(m) => m,
                None => unknown_resolution(),
            })
            &&& strictly_descending(d.supported_resolutions@)
            &&& forall|m: Resolution| d.supported_resolutions@.contains(m) <==> modes@.contains(m)
            &&& d.current_vibrance == reported_levels(dvc).current_level
            &&& d.min_vibrance == reported_levels(dvc).min_level
            &&& d.max_vibrance == reported_levels(dvc).max_level
        },
{
    if state_flags & DISPLAY_DEVICE_ACTIVE == 0 {
        return None;
    }
    let id = u16_to_string(device_name);
    let name = u16_to_string(device_string);
    let is_primary = state_flags & DISPLAY_DEVICE_PRIMARY_DEVICE != 0;
    let current_resolution = match current_mode {
        Some(m) => m,
        None => Resolution { width: 0, height: 0, refresh_rate: 0 },
    };
    let supported_resolutions = supported_resolution_list(modes);
    let (current_vibrance, min_vibrance, max_vibrance) = match dvc {
        Some(l) => (l.current_level, l.min_level, l.max_level),
        None => (0, 0, 0),
    };
    Some(
        DisplayInfo {
            id,
            name,
            is_primary,
            current_resolution,
            supported_resolutions,
            min_vibrance,
            max_vibrance,
            current_vibrance,
        },
    )
}

/// The width of a vibrance range, at least 1.
pub open spec fn vibrance_range(min: int, max: int) -> int {
    if max - min >= 1 {
        max - min
    } else {
        1
    }
}

/// Integer division rounding toward zero, as Rust's `/` does.
pub open spec fn div_toward_zero(n: int, d: int) -> int {
    if n >= 0 {
        n / d
    } else {
        -((-n) / d)
    }
}

/// A raw vibrance level as a percentage of the display's range.
pub open spec fn vibrance_percent_of(current: int, min: int, max: int) -> int {
    div_toward_zero((current - min) * 100, vibrance_range(min, max))
}

/// The inputs on which the percentage computes without `i32` overflow.
pub open spec fn vibrance_percent_fits(current: i32, min: i32, max: i32) -> bool {
    &&& i32::MIN <= max - min <= i32::MAX
    &&& i32::MIN <= (current - min) * 100 <= i32::MAX
}

/// Converts a raw vibrance level into the 0-100 percentage that applying a
/// vibrance expects: `(current - min) * 100 / max(max - min, 1)`.
pub fn vibrance_percent(current: i32, min: i32, max: i32) -> (p: i32)
    requires
        vibrance_percent_fits(current, min, max),
    ensures
        p == vibrance_percent_of(current as int, min as int, max as int),
{
    let range: i64 = if (max as i64) - (min as i64) >= 1 {
        (max as i64) - (min as i64)
    } else {
        1
    };
    let n: i64 = ((current as i64) - (min as i64)) * 100;
    let q: i64 = if n >= 0 {
        n / range
    } else {
        -((-n) / range)
    };
    assert(-0x8000_0000 <= q <= 0x7FFF_FFFF) by (nonlinear_arith)
        requires
            q == div_toward_zero(n as int, range as int),
            range >= 1,
            -0x8000_0000 <= n <= 0x7FFF_FFFF,
    ;
    q as i32
}

proof fn lemma_descending_unique(a: Seq<Resolution>, b: Seq<Resolution>)
    requires
        strictly_descending(a),
        strictly_descending(b),
        forall|m: Resolution| a.contains(m) <==> b.contains(m),
    ensures
        a == b,
    decreases a.len(),
{
    if a.len() == 0 {
        if b.len() > 0 {
            assert(b.contains(b[0]));
        }
        assert(a =~= b);
    } else {
        assert(a.contains(a[0]));
        assert(b.len() > 0);
        assert(b.contains(b[0]));
        let ka = choose|k: int| 0 <= k < a.len() && a[k] == b[0];
        let kb = choose|k: int| 0 <= k < b.len() && b[k] == a[0];
        if ka > 0 {
            assert(mode_before(a[0], a[ka]));
        }
        if kb > 0 {
            assert(mode_before(b[0], b[kb]));
        }
        assert(a[0] == b[0]);
        let ta = a.drop_first();
        let tb = b.drop_first();
        assert forall|m: Resolution| ta.contains(m) <==> tb.contains(m) by {
            if ta.contains(m) {
                let k = choose|k: int| 0 <= k < ta.len() && ta[k] == m;
                assert(a[k + 1] == m);
                assert(a.contains(m));
                assert(mode_before(a[0], a[k + 1]));
                let j = choose|j: int| 0 <= j < b.len() && b[j] == m;
                assert(j != 0);
                assert(tb[j - 1] == m);
            }
            if tb.contains(m) {
                let k = choose|k: int| 0 <= k < tb.len() && tb[k] == m;
                assert(b[k + 1] == m);
                assert(b.contains(m));
                assert(mode_before(b[0], b[k + 1]));
                let j = choose|j: int| 0 <= j < a.len() && a[j] == m;
                assert(j != 0);
                assert(ta[j - 1] == m);
            }
        }
        assert forall|i: int, j: int| 0 <= i < j < ta.len() implies mode_before(#[trigger] ta[i], #[trigger] ta[j]) by {
            assert(ta[i] == a[i + 1] && ta[j] == a[j + 1]);
        }
        assert forall|i: int, j: int| 0 <= i < j < tb.len() implies mode_before(#[trigger] tb[i], #[trigger] tb[j]) by {
            assert(tb[i] == b[i + 1] && tb[j] == b[j + 1]);
        }
        lemma_descending_unique(ta, tb);
        assert forall|i: int| 0 <= i < a.len() implies a[i] == b[i] by {
            if i > 0 {
                assert(a[i] == ta[i - 1] && b[i] == tb[i - 1]);
            }
        }
        assert(a =~= b);
    }
}

/// The supported-mode list does not depend on the order, or the repetitions,
/// in which the driver enumerates modes: two lists that meet the contract of
/// `supported_resolution_list` for mode lists with the same modes are equal.
pub proof fn law_mode_list_order_independent(
    modes1: Seq<Resolution>,
    modes2: Seq<Resolution>,
    r1: Seq<Resolution>,
    r2: Seq<Resolution>,
)
    requires
        forall|m: Resolution| modes1.contains(m) <==> modes2.contains(m),
        strictly_descending(r1),
        forall|m: Resolution| r1.contains(m) <==> modes1.contains(m),
        strictly_descending(r2),
        forall|m: Resolution| r2.contains(m) <==> modes2.contains(m),
    ensures
        r1 == r2,
{
    lemma_descending_unique(r1, r2);
}

} // verus!
