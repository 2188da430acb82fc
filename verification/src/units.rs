//! Derivation of missing physical-width values: given any two of
//! millimeters, pixels and dots-per-inch, the third is fixed by the relation
//! `px = mm * dpi / 25.4`, with millimeters carried in thousandths so the
//! computation stays in exact integer arithmetic.

use vstd::prelude::*;

use crate::profile::Width;

verus! {

/// Thousandths of a millimeter in one inch.
pub const UM_PER_INCH: u64 = 25400;

/// The exact pixel count for a width of `mm` thousandths of a millimeter at
/// `dpi` dots per inch, truncated toward zero.
pub open spec fn spec_px_of_mm(mm: int, dpi: int) -> int {
    (mm * dpi) / 25400
}

/// The exact width in thousandths of a millimeter for `px` pixels at `dpi`
/// dots per inch, truncated toward zero.
pub open spec fn spec_mm_of_px(px: int, dpi: int) -> int {
    (px * 25400) / dpi
}

/// Derive a pixel width from a millimeter width and a resolution; a result
/// beyond the pixel type saturates at its maximum.
pub fn px_from_mm(mm: u32, dpi: u16) -> (r: u16)
    ensures
        spec_px_of_mm(mm as int, dpi as int) <= u16::MAX ==> r == spec_px_of_mm(
            mm as int,
            dpi as int,
        ),
        spec_px_of_mm(mm as int, dpi as int) > u16::MAX ==> r == u16::MAX,
{
    proof {
        assert((mm as u64) * (dpi as u64) <= 0xFFFF_FFFFu64 * 0xFFFFu64) by (nonlinear_arith)
            requires
                mm <= 0xFFFF_FFFFu32,
                dpi <= 0xFFFFu16,
        ;
    }
    let prod: u64 = (mm as u64) * (dpi as u64);
    let px: u64 = prod / UM_PER_INCH;
    if px > 65535 {
        65535
    } else {
        px as u16
    }
}

/// Derive a millimeter width (in thousandths) from a pixel width and a
/// nonzero resolution.
pub fn mm_from_px(px: u16, dpi: u16) -> (r: u32)
    requires
        dpi > 0,
    ensures
        r == spec_mm_of_px(px as int, dpi as int),
{
    let prod: u64 = (px as u64) * UM_PER_INCH;
    let mm: u64 = prod / (dpi as u64);
    proof {
        assert(prod / (dpi as u64) <= prod) by (nonlinear_arith)
            requires
                dpi as u64 >= 1u64,
        ;
    }
    mm as u32
}

/// Why a media width could not be resolved.
#[derive(Copy, Clone, Debug, PartialEq, Eq, Structural)]
pub enum WidthError {
    /// One of millimeters and pixels is known, but the resolution that the
    /// derivation of the other needs is absent.
    MissingDpi,
    /// A millimeter width had to be derived from pixels, but the resolution
    /// is zero, so no finite width corresponds to the pixel count.
    ZeroDpi,
}

/// Derive the resolved (mm, px) width pair by case analysis.
///
/// Both present: returned unchanged, without cross-checking. Neither
/// present: the width is unknown, which is not an error. Only one present:
/// the other is derived from the resolution, and the resolution being absent
/// is an error; deriving millimeters further needs it to be nonzero.
pub fn resolve_width(mm: Option<u32>, px: Option<u16>, dpi: Option<u16>) -> (r: Result<
    Option<Width>,
    WidthError,
>)
    ensures
        mm is Some && px is Some ==> r == Ok::<Option<Width>, WidthError>(
            Some(Width { mm: mm.unwrap(), px: px.unwrap() }),
        ),
        mm is None && px is None ==> r == Ok::<Option<Width>, WidthError>(None),
        mm is Some && px is None && dpi is None ==> r == Err::<Option<Width>, WidthError>(
            WidthError::MissingDpi,
        ),
        mm is Some && px is None && dpi is Some ==> (r matches Ok(Some(w)) && w.mm == mm.unwrap()
            && w.px == (if spec_px_of_mm(mm.unwrap() as int, dpi.unwrap() as int) > u16::MAX {
            u16::MAX as int
        } else {
            spec_px_of_mm(mm.unwrap() as int, dpi.unwrap() as int)
        })),
        mm is None && px is Some && dpi is None ==> r == Err::<Option<Width>, WidthError>(
            WidthError::MissingDpi,
        ),
        mm is None && px is Some && dpi == Some(0u16) ==> r == Err::<Option<Width>, WidthError>(
            WidthError::ZeroDpi,
        ),
        (mm is None && px is Some && dpi is Some && dpi.unwrap() > 0) ==> (r matches Ok(Some(w))
            && w.px == px.unwrap() && w.mm == spec_mm_of_px(
            px.unwrap() as int,
            dpi.unwrap() as int,
        )),
{
    match (mm, px) {
        (Some(m), Some(p)) => Ok(Some(Width::new(m, p))),
        (None, None) => Ok(None),
        (Some(m), None) => match dpi {
            None => Err(WidthError::MissingDpi),
            Some(d) => Ok(Some(Width::new(m, px_from_mm(m, d)))),
        },
        (None, Some(p)) => match dpi {
            None => Err(WidthError::MissingDpi),
            Some(d) => {
                if d == 0 {
                    Err(WidthError::ZeroDpi)
                } else {
                    Ok(Some(Width::new(mm_from_px(p, d), p)))
                }
            },
        },
    }
}

} // verus!
