//! Decoding of the raw database's field shapes: tri-state numeric fields
//! (absent, explicitly unknown, or known) and fixed-length character tables
//! given as string segments concatenated in order.

use vstd::prelude::*;
use vstd::string::StrSliceExecFns;

use crate::units::WidthError;

verus! {

/// A field of the raw database that is present but possibly marked unknown.
/// A field absent from the input entirely is the surrounding `Option` being
/// `None`, which makes the whole field tri-state.
#[derive(Copy, Clone, Debug, PartialEq, Eq, Structural)]
pub enum MaybeUnknown<T> {
    /// The database marks the value as explicitly unknown.
    Unknown,
    /// A known value.
    Known(T),
}

impl<T> MaybeUnknown<T> {
    /// The known value as an option, dropping the unknown marker.
    pub open spec fn spec_opt(self) -> Option<T> {
        match self {
            MaybeUnknown::Unknown => None,
            MaybeUnknown::Known(x) => Some(x),
        }
    }

    /// The known value, if there is one.
    pub fn opt(self) -> (r: Option<T>)
        ensures
            r == self.spec_opt(),
    {
        match self {
            MaybeUnknown::Unknown => None,
            MaybeUnknown::Known(x) => Some(x),
        }
    }
}

/// A possibly absent tri-state field, flattened to an option.
pub open spec fn spec_flatten<T>(x: Option<MaybeUnknown<T>>) -> Option<T> {
    match x {
        None => None,
        Some(m) => m.spec_opt(),
    }
}

/// Collapse a possibly absent tri-state field: only a present, known value
/// remains.
pub fn flatten<T>(x: Option<MaybeUnknown<T>>) -> (r: Option<T>)
    ensures
        r == spec_flatten(x),
{
    match x {
        None => None,
        Some(m) => m.opt(),
    }
}

/// The raw print-width field of a profile: a tri-state millimeter width (in
/// thousandths of a millimeter) and a possibly absent tri-state pixel width.
#[derive(Copy, Clone, Debug)]
pub struct RawWidth {
    /// The millimeter width, in thousandths of a millimeter.
    pub mm: MaybeUnknown<u32>,
    /// The pixel width.
    pub pixels: Option<MaybeUnknown<u16>>,
}

/// The raw media field of a profile: a possibly absent tri-state resolution
/// and a raw width.
#[derive(Copy, Clone, Debug)]
pub struct RawMedia {
    /// The resolution in dots per inch.
    pub dpi: Option<MaybeUnknown<u16>>,
    /// The raw print width.
    pub width: RawWidth,
}

impl RawMedia {
    /// The width of this raw media can be resolved: it is not the case
    /// that exactly one of the millimeter and pixel widths is known while
    /// the resolution needed to derive the other is absent — or zero, when
    /// millimeters must be derived from pixels.
    pub open spec fn resolvable(self) -> bool {
        !((self.width.mm.spec_opt() is Some) != (spec_flatten(self.width.pixels) is Some)
            && (spec_flatten(self.dpi) is None || (self.width.mm.spec_opt() is None && spec_flatten(
            self.dpi,
        ) == Some(0u16))))
    }

    /// The resolved (mm, px) width pair of this raw media, derived per
    /// [`crate::units::resolve_width`] from whatever of the millimeter
    /// width, the pixel width and the resolution is known.
    pub fn get_width(&self) -> (r: Result<Option<crate::profile::Width>, WidthError>)
        ensures
            ({
                let mm = self.width.mm.spec_opt();
                let px = spec_flatten(self.width.pixels);
                let dpi = spec_flatten(self.dpi);
                &&& (mm is Some && px is Some ==> r == Ok::<_, WidthError>(
                    Some(crate::profile::Width { mm: mm.unwrap(), px: px.unwrap() }),
                ))
                &&& (mm is None && px is None ==> r == Ok::<Option<crate::profile::Width>, WidthError>(None))
                &&& (mm is Some != px is Some && dpi is None ==> r == Err::<
                    Option<crate::profile::Width>,
                    WidthError,
                >(WidthError::MissingDpi))
                &&& (mm is Some && px is None && dpi is Some ==> (r matches Ok(Some(w)) && w.mm
                    == mm.unwrap()))
                &&& ((mm is None && px is Some && dpi is Some && dpi.unwrap() > 0) ==> (r matches Ok(
                    Some(w),
                ) && w.px == px.unwrap() && w.mm == crate::units::spec_mm_of_px(
                    px.unwrap() as int,
                    dpi.unwrap() as int,
                )))
                &&& (mm is None && px is Some && dpi == Some(0u16) ==> r == Err::<
                    Option<crate::profile::Width>,
                    WidthError,
                >(WidthError::ZeroDpi))
            }),
    {
        crate::units::resolve_width(self.width.mm.opt(), flatten(self.pixels_copy()), flatten(self.dpi))
    }

    /// The pixel field, copied out.
    fn pixels_copy(&self) -> (r: Option<MaybeUnknown<u16>>)
        ensures
            r == self.width.pixels,
    {
        self.width.pixels
    }

    /// Resolve this raw media into final media information: the resolution
    /// collapses to its known value, and the width pair is derived as in
    /// [`Self::get_width`].
    pub fn resolve(&self) -> (r: Result<crate::profile::Media, WidthError>)
        ensures
            r matches Ok(m) ==> m.dpi == spec_flatten(self.dpi),
            r is Ok <==> self.resolvable(),
            r matches Ok(m) ==> (m.width is Some <==> (self.width.mm.spec_opt() is Some
                || spec_flatten(self.width.pixels) is Some)),
    {
        match self.get_width() {
            Ok(w) => Ok(crate::profile::Media::new(flatten(self.dpi), w)),
            Err(e) => Err(e),
        }
    }
}

/// The concatenation of the given character sequences, in order.
pub open spec fn joined(segs: Seq<Seq<char>>) -> Seq<char>
    decreases segs.len(),
{
    if segs.len() == 0 {
        Seq::empty()
    } else {
        joined(segs.drop_last()) + segs.last()
    }
}

/// The views of a sequence of strings.
pub open spec fn views_of(ss: Seq<String>) -> Seq<Seq<char>> {
    ss.map_values(|s: String| s@)
}

/// Decode a fixed-length character table given as string segments
/// concatenated in order.
///
/// Returns the 128 characters of the table exactly when the segments hold
/// 128 characters in total; any other total is a hard format violation of
/// 7-bit-extended code pages and yields nothing.
pub fn decode_code_page(segments: &Vec<String>) -> (r: Option<Vec<char>>)
    ensures
        r is Some <==> joined(views_of(segments@)).len() == 128,
        r matches Some(v) ==> v@ == joined(views_of(segments@)) && v@.len() == 128,
{
    let mut out: Vec<char> = Vec::new();
    let n = segments.len();
    let mut i: usize = 0;
    while i < n
        invariant
            i <= n,
            n == segments@.len(),
            out@ == joined(views_of(segments@.subrange(0, i as int))),
        decreases n - i,
    {
        let s = segments[i].as_str();
        let m = s.unicode_len();
        let mut j: usize = 0;
        while j < m
            invariant
                j <= m,
                m == s@.len(),
                s@ == segments@[i as int]@,
                i < n,
                n == segments@.len(),
                out@ == joined(views_of(segments@.subrange(0, i as int))) + s@.subrange(
                    0,
                    j as int,
                ),
            decreases m - j,
        {
            out.push(s.get_char(j));
            proof {
                assert(s@.subrange(0, j + 1) =~= s@.subrange(0, j as int).push(s@[j as int]));
            }
            j += 1;
        }
        proof {
            let vs = views_of(segments@);
            let p1 = views_of(segments@.subrange(0, i + 1));
            assert(p1.drop_last() =~= views_of(segments@.subrange(0, i as int)));
            assert(p1.last() == segments@[i as int]@);
            assert(s@.subrange(0, m as int) =~= s@);
        }
        i += 1;
    }
    proof {
        assert(segments@.subrange(0, n as int) =~= segments@);
    }
    if out.len() == 128 {
        Some(out)
    } else {
        None
    }
}

} // verus!
