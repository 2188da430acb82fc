//! The model types stored per printer profile: encodings, ink colors, font
//! descriptors, media information, the profile record itself, and the
//! name-to-profile lookup table.

use vstd::prelude::*;

use crate::features::Features;
use crate::int_map::IntMap;

verus! {

/// An ink color supported by a printer profile.
#[derive(Copy, Clone, Debug, PartialEq, Eq, Structural)]
pub enum Color {
    /// Black ink.
    Black,
    /// Red ink.
    Red,
    /// A second, device-defined alternate color.
    Alternate,
}

/// Information for a supported printer font.
#[derive(Copy, Clone, Debug, PartialEq, Eq, Structural)]
pub struct FontInfo {
    /// The maximum number of characters that can fit on a line, using this
    /// font.
    pub columns: u8,
}

/// The supported print width for a printer profile.
///
/// The millimeter width is held in thousandths of a millimeter, so that the
/// unit derivation stays exact; a consumer that wants whole millimeters
/// divides by one thousand.
#[derive(Copy, Clone, Debug, PartialEq, Eq, Structural)]
pub struct Width {
    /// The print width in thousandths of a millimeter.
    pub mm: u32,
    /// The print width in pixels.
    pub px: u16,
}

impl Width {
    /// Create a new `Width` with the given millimeter and pixel width
    /// values, the former in thousandths of a millimeter.
    pub fn new(mm: u32, px: u16) -> (r: Self)
        ensures
            r == (Width { mm, px }),
    {
        Width { mm, px }
    }
}

/// Print media information for a printer profile.
///
/// After resolution the width is either fully known (millimeters and pixels
/// both present) or fully absent, never partially known.
#[derive(Copy, Clone, Debug)]
pub struct Media {
    /// The pixel density of this printer in dots per inch.
    pub dpi: Option<u16>,
    /// The print width of this printer.
    pub width: Option<Width>,
}

impl Media {
    /// Create a new `Media` with the given dpi and width.
    pub fn new(dpi: Option<u16>, width: Option<Width>) -> (r: Self)
        ensures
            r.dpi == dpi,
            r.width == width,
    {
        Media { dpi, width }
    }
}

/// A named 7-bit-extended character table: its identity, an optional fixed
/// 128-entry character array (the code page), and optional free-text notes.
#[derive(Debug)]
pub struct Encoding {
    /// The identifying name of this encoding: the key under which the
    /// database declares it.
    pub name: String,
    /// The 128 characters of the code page, if known.
    pub data: Option<Vec<char>>,
    /// Free-text notes about this encoding.
    pub notes: Option<String>,
}

impl Encoding {
    /// A known code page holds exactly 128 characters.
    pub open spec fn wf(self) -> bool {
        self.data matches Some(d) ==> d@.len() == 128
    }

    /// Create a new encoding record.
    pub fn new(name: String, data: Option<Vec<char>>, notes: Option<String>) -> (r: Self)
        requires
            data matches Some(d) ==> d@.len() == 128,
        ensures
            r.name == name,
            r.data == data,
            r.notes == notes,
            r.wf(),
    {
        Encoding { name, data, notes }
    }

    /// This encoding's 7-bit codepage.
    pub fn data<'a>(&'a self) -> (r: Option<&'a Vec<char>>)
        ensures
            match r {
                Some(d) => self.data == Some(*d),
                None => self.data is None,
            },
    {
        match &self.data {
            Some(d) => Some(d),
            None => None,
        }
    }
}

/// Copy a character vector element for element.
fn copy_chars(v: &Vec<char>) -> (r: Vec<char>)
    ensures
        r@ == v@,
{
    let mut out: Vec<char> = Vec::new();
    let mut i: usize = 0;
    while i < v.len()
        invariant
            i <= v@.len(),
            out@ == v@.subrange(0, i as int),
        decreases v@.len() - i,
    {
        out.push(v[i]);
        proof {
            assert(out@ =~= v@.subrange(0, i + 1));
        }
        i += 1;
    }
    proof {
        assert(v@.subrange(0, v@.len() as int) =~= v@);
    }
    out
}

impl Clone for Encoding {
    /// An encoding clone keeps the name, the code page characters and the
    /// notes exactly.
    fn clone(&self) -> (r: Self)
        ensures
            r.name@ == self.name@,
            r.data is Some <==> self.data is Some,
            r.data matches Some(d) ==> self.data matches Some(sd) && d@ == sd@,
            r.notes is Some <==> self.notes is Some,
            r.notes matches Some(x) ==> self.notes matches Some(sx) && x@ == sx@,
            self.wf() ==> r.wf(),
    {
        let data = match &self.data {
            Some(d) => Some(copy_chars(d)),
            None => None,
        };
        let notes = match &self.notes {
            Some(x) => Some(x.clone()),
            None => None,
        };
        Encoding { name: self.name.clone(), data, notes }
    }
}

/// A profile with capability information for an ESC/POS printer.
#[derive(Debug)]
pub struct Profile {
    /// The name of this printer.
    pub name: String,
    /// The vendor or manufacturer of this printer.
    pub vendor: String,
    /// Specific features supported by this printer.
    pub features: Features,
    /// Supported code pages, by device-internal page id.
    pub code_pages: IntMap<Encoding>,
    /// The ink colors supported by this printer, by device-internal id.
    pub colors: IntMap<Color>,
    /// The character fonts supported by this printer, by device-internal id.
    pub fonts: IntMap<FontInfo>,
    /// Print media information for this printer.
    pub media: Media,
}

impl Profile {
    /// Every capability table keeps its sorted, duplicate-free invariant.
    pub open spec fn wf(self) -> bool {
        self.code_pages.wf() && self.colors.wf() && self.fonts.wf()
    }

    /// Create a new profile.
    ///
    /// All fields other than `name` and `vendor` are set to their default
    /// values: no features, empty capability tables, unknown media.
    pub fn new(name: String, vendor: String) -> (r: Self)
        ensures
            r.name == name,
            r.vendor == vendor,
            r.features.bits() == 0u32,
            r.code_pages@ == Map::<u8, Encoding>::empty(),
            r.colors@ == Map::<u8, Color>::empty(),
            r.fonts@ == Map::<u8, FontInfo>::empty(),
            r.media.dpi is None,
            r.media.width is None,
            r.wf(),
    {
        Profile {
            name,
            vendor,
            features: Features::new(),
            code_pages: IntMap::empty(),
            colors: IntMap::empty(),
            fonts: IntMap::empty(),
            media: Media::new(None, None),
        }
    }

    /// Set [`Self::features`] to `features`.
    pub fn with_features(self, features: Features) -> (r: Self)
        ensures
            r == (Profile { features, ..self }),
    {
        Profile { features, ..self }
    }

    /// Set [`Self::code_pages`] to `code_pages`.
    pub fn with_code_pages(self, code_pages: IntMap<Encoding>) -> (r: Self)
        ensures
            r == (Profile { code_pages, ..self }),
    {
        Profile { code_pages, ..self }
    }

    /// Set [`Self::colors`] to `colors`.
    pub fn with_colors(self, colors: IntMap<Color>) -> (r: Self)
        ensures
            r == (Profile { colors, ..self }),
    {
        Profile { colors, ..self }
    }

    /// Set [`Self::fonts`] to `fonts`.
    pub fn with_fonts(self, fonts: IntMap<FontInfo>) -> (r: Self)
        ensures
            r == (Profile { fonts, ..self }),
    {
        Profile { fonts, ..self }
    }

    /// Set [`Self::media`] to `media`.
    pub fn with_media(self, media: Media) -> (r: Self)
        ensures
            r == (Profile { media, ..self }),
    {
        Profile { media, ..self }
    }
}

/// A table mapping each profile's database key to its profile, looked up by
/// exact name.
#[derive(Debug)]
pub struct ProfileTable {
    entries: Vec<(String, Profile)>,
}

impl ProfileTable {
    /// The (key, profile) pairs of the table, in the order they were added.
    pub closed spec fn entries_view(self) -> Seq<(String, Profile)> {
        self.entries@
    }

    /// Some entry of the table carries the key `name`.
    pub open spec fn has_name(self, name: Seq<char>) -> bool {
        exists|i: int|
            0 <= i < self.entries_view().len() && #[trigger] self.entries_view()[i].0@ == name
    }

    /// A new, empty table.
    pub fn new() -> (r: Self)
        ensures
            r.entries_view() == Seq::<(String, Profile)>::empty(),
    {
        ProfileTable { entries: Vec::new() }
    }

    /// The number of profiles in the table.
    pub fn len(&self) -> (n: usize)
        ensures
            n == self.entries_view().len(),
    {
        self.entries.len()
    }

    /// The entry at position `i`, in insertion order.
    pub fn at<'a>(&'a self, i: usize) -> (r: (&'a String, &'a Profile))
        requires
            i < self.entries_view().len(),
        ensures
            *r.0 == self.entries_view()[i as int].0,
            *r.1 == self.entries_view()[i as int].1,
    {
        let e = &self.entries[i];
        (&e.0, &e.1)
    }

    /// Add a profile under its database key.
    pub fn push(&mut self, name: String, profile: Profile)
        ensures
            final(self).entries_view() == old(self).entries_view().push((name, profile)),
    {
        self.entries.push((name, profile));
    }

    /// Look a profile up by its exact database key.
    ///
    /// Returns the first profile whose key is `name`, and nothing exactly
    /// when no entry carries that key.
    pub fn get<'a>(&'a self, name: &String) -> (r: Option<&'a Profile>)
        ensures
            match r {
                Some(p) => exists|i: int|
                    0 <= i < self.entries_view().len() && #[trigger] self.entries_view()[i].0@
                        == name@ && self.entries_view()[i].1 == *p,
                None => !self.has_name(name@),
            },
    {
        let n = self.entries.len();
        let mut i: usize = 0;
        while i < n
            invariant
                i <= n,
                n == self.entries_view().len(),
                forall|j: int| 0 <= j < i ==> #[trigger] self.entries_view()[j].0@ != name@,
            decreases n - i,
        {
            if self.entries[i].0.eq(name) {
                return Some(&self.entries[i].1);
            }
            i += 1;
        }
        None
    }
}

} // verus!
