//! The generation pipeline: turn the raw database model into the resolved
//! one — decode code pages, derive missing media widths, assign feature
//! bits, and key every profile by name — reporting, for each failure, which
//! entity triggered it.

use vstd::prelude::*;
use vstd::string::StringExecFns;

use crate::features::spec_pack;
use crate::features::FeatureRegistry;
use crate::int_map::insert_all;
use crate::int_map::OwnedIntMap;
use crate::profile::Color;
use crate::profile::Encoding;
use crate::profile::FontInfo;
use crate::profile::Profile;
use crate::profile::ProfileTable;
use crate::schema::joined;
use crate::schema::views_of;
use crate::schema::RawMedia;
use crate::units::WidthError;

verus! {

/// A raw encoding entry of the source database: a free-text display name,
/// an optional code page given as string segments, and optional notes.
#[derive(Debug)]
pub struct RawEncoding {
    /// The encoding's display name.
    pub name: String,
    /// The code page, as string segments concatenated in order.
    pub data: Option<Vec<String>>,
    /// Free-text notes.
    pub notes: Option<String>,
}

/// A raw profile entry of the source database.
#[derive(Debug)]
pub struct RawProfile {
    /// The printer's name.
    pub name: String,
    /// The printer's vendor.
    pub vendor: String,
    /// Free-text notes.
    pub notes: String,
    /// Supported code pages: device-internal page id to encoding key.
    pub code_pages: Vec<(u8, String)>,
    /// Supported ink colors: device-internal id to color name.
    pub colors: Vec<(u8, String)>,
    /// Declared feature booleans, by feature name.
    pub features: Vec<(String, bool)>,
    /// Supported fonts: device-internal id to font descriptor.
    pub fonts: Vec<(u8, FontInfo)>,
    /// Raw print media information.
    pub media: RawMedia,
}

/// The raw database: encodings and profiles, each keyed by name. The caller
/// hands the entries in the source document's deterministic (lexicographic)
/// key order, and the pipeline keeps that order, so emission is reproducible.
#[derive(Debug)]
pub struct RawDb {
    /// The encodings, keyed by encoding key.
    pub encodings: Vec<(String, RawEncoding)>,
    /// The profiles, keyed by profile key.
    pub profiles: Vec<(String, RawProfile)>,
}

/// Why a database failed to build. Each input-format failure names the
/// entity (encoding or profile key) that triggered it.
#[derive(Debug)]
pub enum BuildError {
    /// An encoding's code page did not decode to exactly 128 characters.
    BadCodePage {
        /// The key of the offending encoding.
        entity: String,
    },
    /// A profile names an encoding that the database does not hold.
    UnknownEncoding {
        /// The key of the offending profile.
        entity: String,
    },
    /// A profile names an ink color outside the closed color set.
    UnknownColor {
        /// The key of the offending profile.
        entity: String,
    },
    /// A profile's media width could not be resolved.
    BadMedia {
        /// The key of the offending profile.
        entity: String,
        /// What made the width unresolvable.
        err: WidthError,
    },
    /// The canonical profile declares more features than the bit set holds.
    TooManyFeatures,
    /// Two profiles share one key.
    DuplicateProfile {
        /// The repeated key.
        entity: String,
    },
}

/// The color of the closed set carrying the given lower-case name.
pub open spec fn spec_color_of(s: Seq<char>) -> Option<Color> {
    if s == "black"@ {
        Some(Color::Black)
    } else if s == "red"@ {
        Some(Color::Red)
    } else if s == "alternate"@ {
        Some(Color::Alternate)
    } else {
        None
    }
}

/// Parse an ink color name from the closed set.
pub fn color_of_name(name: &String) -> (r: Option<Color>)
    ensures
        r == spec_color_of(name@),
{
    if name.eq(&String::from_str("black")) {
        Some(Color::Black)
    } else if name.eq(&String::from_str("red")) {
        Some(Color::Red)
    } else if name.eq(&String::from_str("alternate")) {
        Some(Color::Alternate)
    } else {
        proof {
            reveal_strlit("black");
            reveal_strlit("red");
            reveal_strlit("alternate");
        }
        None
    }
}

/// Some encoding of the list carries the key `key`.
pub open spec fn enc_found(encs: Seq<Encoding>, key: Seq<char>) -> bool {
    exists|i: int| 0 <= i < encs.len() && #[trigger] encs[i].name@ == key
}

/// Find the first encoding carrying the key `key`.
fn find_encoding<'a>(encs: &'a Vec<Encoding>, key: &String) -> (r: Option<&'a Encoding>)
    ensures
        match r {
            Some(e) => enc_found(encs@, key@) && exists|i: int|
                0 <= i < encs@.len() && #[trigger] encs@[i].name@ == key@ && encs@[i] == *e,
            None => !enc_found(encs@, key@),
        },
{
    let n = encs.len();
    let mut i: usize = 0;
    while i < n
        invariant
            i <= n,
            n == encs@.len(),
            forall|j: int| 0 <= j < i ==> #[trigger] encs@[j].name@ != key@,
        decreases n - i,
    {
        if encs[i].name.eq(key) {
            return Some(&encs[i]);
        }
        i += 1;
    }
    None
}

/// The raw encoding's code page decodes, or is absent.
pub open spec fn enc_decodes(e: RawEncoding) -> bool {
    e.data matches Some(segs) ==> joined(views_of(segs@)).len() == 128
}

/// Decode every encoding of the raw database, in order, keying each record
/// by its database key.
///
/// Succeeds exactly when every present code page holds 128 characters; the
/// first that does not names its encoding in the error.
pub fn build_encodings(raw: &Vec<(String, RawEncoding)>) -> (r: Result<Vec<Encoding>, BuildError>)
    ensures
        r is Ok <==> (forall|i: int| 0 <= i < raw@.len() ==> enc_decodes(#[trigger] raw@[i].1)),
        r matches Ok(v) ==> {
            &&& v@.len() == raw@.len()
            &&& forall|i: int| 0 <= i < raw@.len() ==> (#[trigger] v@[i]).name@ == raw@[i].0@
            &&& forall|i: int| 0 <= i < raw@.len() ==> (#[trigger] v@[i]).wf()
            &&& forall|i: int|
                0 <= i < raw@.len() ==> ((#[trigger] v@[i]).data is Some <==> raw@[i].1.data
                    is Some)
        },
        r matches Err(e) ==> e matches BuildError::BadCodePage { entity },
{
    let n = raw.len();
    let mut out: Vec<Encoding> = Vec::new();
    let mut i: usize = 0;
    while i < n
        invariant
            i <= n,
            n == raw@.len(),
            out@.len() == i,
            forall|j: int| 0 <= j < i ==> enc_decodes(#[trigger] raw@[j].1),
            forall|j: int| 0 <= j < i ==> (#[trigger] out@[j]).name@ == raw@[j].0@,
            forall|j: int| 0 <= j < i ==> (#[trigger] out@[j]).wf(),
            forall|j: int|
                0 <= j < i ==> ((#[trigger] out@[j]).data is Some <==> raw@[j].1.data is Some),
        decreases n - i,
    {
        let entry = &raw[i];
        let data = match &entry.1.data {
            None => None,
            Some(segs) => match crate::schema::decode_code_page(segs) {
                Some(v) => Some(v),
                None => {
                    return Err(BuildError::BadCodePage { entity: entry.0.clone() });
                },
            },
        };
        let notes = match &entry.1.notes {
            None => None,
            Some(x) => Some(x.clone()),
        };
        out.push(Encoding::new(entry.0.clone(), data, notes));
        i += 1;
    }
    Ok(out)
}

/// Every color name of the raw profile is in the closed color set.
pub open spec fn colors_valid(p: RawProfile) -> bool {
    forall|j: int| 0 <= j < p.colors@.len() ==> spec_color_of(#[trigger] p.colors@[j].1@) is Some
}

/// Every encoding key of the raw profile is held by the encoding list.
pub open spec fn pages_valid(p: RawProfile, encs: Seq<Encoding>) -> bool {
    forall|j: int| 0 <= j < p.code_pages@.len() ==> enc_found(encs, #[trigger] p.code_pages@[j].1@)
}

/// Resolve one raw profile against the encoding list and the feature
/// registry.
///
/// Succeeds exactly when every named encoding exists, every color name is
/// in the closed set, and the media width resolves; the feature bit set is
/// packed against the registry's canonical order, and each capability table
/// takes its entries with the last write winning on a repeated id.
pub fn build_profile(key: &String, p: &RawProfile, encs: &Vec<Encoding>, reg: &FeatureRegistry)
    -> (r: Result<Profile, BuildError>)
    requires
        reg.wf(),
    ensures
        r is Ok <==> (pages_valid(*p, encs@) && colors_valid(*p) && p.media.resolvable()),
        r matches Ok(prof) ==> {
            &&& prof.wf()
            &&& prof.name@ == p.name@
            &&& prof.vendor@ == p.vendor@
            &&& prof.features.bits() == spec_pack(
                reg.names_view(),
                p.features@.map_values(|pr: (String, bool)| (pr.0@, pr.1)),
            )
            &&& prof.fonts@ == insert_all(Map::<u8, FontInfo>::empty(), p.fonts@)
            &&& prof.media.dpi == crate::schema::spec_flatten(p.media.dpi)
            &&& (prof.media.width is Some <==> (p.media.width.mm.spec_opt() is Some
                || crate::schema::spec_flatten(p.media.width.pixels) is Some))
            &&& forall|k: u8|
                #[trigger] prof.code_pages@.dom().contains(k) <==> exists|j: int|
                    0 <= j < p.code_pages@.len() && #[trigger] p.code_pages@[j].0 == k
            &&& forall|k: u8|
                #[trigger] prof.code_pages@.dom().contains(k) ==> exists|j: int|
                    0 <= j < p.code_pages@.len() && #[trigger] p.code_pages@[j].0 == k
                        && prof.code_pages@[k].name@ == p.code_pages@[j].1@
            &&& forall|k: u8|
                #[trigger] prof.colors@.dom().contains(k) <==> exists|j: int|
                    0 <= j < p.colors@.len() && #[trigger] p.colors@[j].0 == k
            &&& forall|k: u8|
                #[trigger] prof.colors@.dom().contains(k) ==> exists|j: int|
                    0 <= j < p.colors@.len() && #[trigger] p.colors@[j].0 == k && Some(
                        prof.colors@[k],
                    ) == spec_color_of(p.colors@[j].1@)
        },
{
    let media = match p.media.resolve() {
        Ok(m) => m,
        Err(e) => {
            return Err(BuildError::BadMedia { entity: key.clone(), err: e });
        },
    };
    let features = reg.pack(&p.features);

    let mut pages: OwnedIntMap<Encoding> = OwnedIntMap::new();
    let np = p.code_pages.len();
    let mut i: usize = 0;
    while i < np
        invariant
            i <= np,
            np == p.code_pages@.len(),
            pages.wf(),
            forall|j: int| 0 <= j < i ==> enc_found(encs@, #[trigger] p.code_pages@[j].1@),
            forall|k: u8|
                #[trigger] pages@.dom().contains(k) <==> exists|j: int|
                    0 <= j < i && #[trigger] p.code_pages@[j].0 == k,
            forall|k: u8|
                #[trigger] pages@.dom().contains(k) ==> exists|j: int|
                    0 <= j < i && #[trigger] p.code_pages@[j].0 == k && pages@[k].name@
                        == p.code_pages@[j].1@,
        decreases np - i,
    {
        let pair = &p.code_pages[i];
        let ghost before = pages@;
        match find_encoding(encs, &pair.1) {
            Some(e) => {
                pages.insert(pair.0, e.clone());
            },
            None => {
                return Err(BuildError::UnknownEncoding { entity: key.clone() });
            },
        }
        proof {
            assert forall|k: u8| #[trigger] pages@.dom().contains(k) implies exists|j: int|
                0 <= j < i + 1 && #[trigger] p.code_pages@[j].0 == k by {
                if k == p.code_pages@[i as int].0 {
                    assert(p.code_pages@[i as int].0 == k);
                }
            }
            assert forall|k: u8| #[trigger] pages@.dom().contains(k) implies exists|j: int|
                0 <= j < i + 1 && #[trigger] p.code_pages@[j].0 == k && pages@[k].name@
                    == p.code_pages@[j].1@ by {
                if k == p.code_pages@[i as int].0 {
                    assert(p.code_pages@[i as int].0 == k && pages@[k].name@
                        == p.code_pages@[i as int].1@);
                } else {
                    assert(before.dom().contains(k) && pages@[k] == before[k]);
                    let j = choose|j: int|
                        0 <= j < i && #[trigger] p.code_pages@[j].0 == k && before[k].name@
                            == p.code_pages@[j].1@;
                    assert(0 <= j < i + 1 && p.code_pages@[j].0 == k && pages@[k].name@
                        == p.code_pages@[j].1@);
                }
            }
        }
        i += 1;
    }

    let mut colors: OwnedIntMap<Color> = OwnedIntMap::new();
    let nc = p.colors.len();
    let mut ci: usize = 0;
    while ci < nc
        invariant
            ci <= nc,
            nc == p.colors@.len(),
            colors.wf(),
            forall|j: int| 0 <= j < ci ==> spec_color_of(#[trigger] p.colors@[j].1@) is Some,
            forall|k: u8|
                #[trigger] colors@.dom().contains(k) <==> exists|j: int|
                    0 <= j < ci && #[trigger] p.colors@[j].0 == k,
            forall|k: u8|
                #[trigger] colors@.dom().contains(k) ==> exists|j: int|
                    0 <= j < ci && #[trigger] p.colors@[j].0 == k && Some(colors@[k])
                        == spec_color_of(p.colors@[j].1@),
        decreases nc - ci,
    {
        let pair = &p.colors[ci];
        let ghost before = colors@;
        match color_of_name(&pair.1) {
            Some(c) => {
                colors.insert(pair.0, c);
            },
            None => {
                return Err(BuildError::UnknownColor { entity: key.clone() });
            },
        }
        proof {
            assert forall|k: u8| #[trigger] colors@.dom().contains(k) implies exists|j: int|
                0 <= j < ci + 1 && #[trigger] p.colors@[j].0 == k by {
                if k == p.colors@[ci as int].0 {
                    assert(p.colors@[ci as int].0 == k);
                }
            }
            assert forall|k: u8| #[trigger] colors@.dom().contains(k) implies exists|j: int|
                0 <= j < ci + 1 && #[trigger] p.colors@[j].0 == k && Some(colors@[k])
                    == spec_color_of(p.colors@[j].1@) by {
                if k == p.colors@[ci as int].0 {
                    assert(p.colors@[ci as int].0 == k && Some(colors@[k]) == spec_color_of(
                        p.colors@[ci as int].1@,
                    ));
                } else {
                    assert(before.dom().contains(k) && colors@[k] == before[k]);
                    let j = choose|j: int|
                        0 <= j < ci && #[trigger] p.colors@[j].0 == k && Some(before[k])
                            == spec_color_of(p.colors@[j].1@);
                    assert(0 <= j < ci + 1 && p.colors@[j].0 == k && Some(colors@[k])
                        == spec_color_of(p.colors@[j].1@));
                }
            }
        }
        ci += 1;
    }

    let mut fonts: OwnedIntMap<FontInfo> = OwnedIntMap::new();
    let mut font_pairs: Vec<(u8, FontInfo)> = Vec::new();
    let nf = p.fonts.len();
    let mut fi: usize = 0;
    while fi < nf
        invariant
            fi <= nf,
            nf == p.fonts@.len(),
            font_pairs@ == p.fonts@.subrange(0, fi as int),
        decreases nf - fi,
    {
        font_pairs.push(p.fonts[fi]);
        proof {
            assert(font_pairs@ =~= p.fonts@.subrange(0, fi + 1));
        }
        fi += 1;
    }
    proof {
        assert(p.fonts@.subrange(0, nf as int) =~= p.fonts@);
    }
    fonts.extend(font_pairs);

    Ok(
        Profile::new(p.name.clone(), p.vendor.clone()).with_features(features).with_code_pages(
            pages.into_int_map(),
        ).with_colors(colors.into_int_map()).with_fonts(fonts.into_int_map()).with_media(media),
    )
}

/// The resolved database: the decoded encodings, the canonical feature
/// names in bit order, and every profile keyed by name.
#[derive(Debug)]
pub struct Database {
    /// The decoded encodings, in source order.
    pub encodings: Vec<Encoding>,
    /// The canonical feature names, by bit position.
    pub feature_names: Vec<String>,
    /// The profiles, keyed by database key.
    pub profiles: ProfileTable,
}

impl Database {
    /// Profile keys are pairwise distinct, every profile and encoding keeps
    /// its table invariants, and the canonical feature list fits the bit
    /// set.
    pub open spec fn wf(self) -> bool {
        &&& forall|i: int, j: int|
            0 <= i < j < self.profiles.entries_view().len()
                ==> #[trigger] self.profiles.entries_view()[i].0@
                != #[trigger] self.profiles.entries_view()[j].0@
        &&& forall|i: int|
            0 <= i < self.profiles.entries_view().len()
                ==> (#[trigger] self.profiles.entries_view()[i].1).wf()
        &&& forall|i: int| 0 <= i < self.encodings@.len() ==> (#[trigger] self.encodings@[i]).wf()
        &&& self.feature_names@.len() <= 32
    }
}

/// Some raw encoding entry carries the key `key`.
pub open spec fn enc_key_known(encs: Seq<(String, RawEncoding)>, key: Seq<char>) -> bool {
    exists|i: int| 0 <= i < encs.len() && #[trigger] encs[i].0@ == key
}

/// The raw profile resolves against the raw encoding list: every encoding
/// key it names is known, every color name is in the closed set, and its
/// media width is derivable.
pub open spec fn raw_profile_ok(p: RawProfile, encs: Seq<(String, RawEncoding)>) -> bool {
    &&& forall|j: int|
        0 <= j < p.code_pages@.len() ==> enc_key_known(encs, #[trigger] p.code_pages@[j].1@)
    &&& colors_valid(p)
    &&& p.media.resolvable()
}

/// No two raw profile entries share a key.
pub open spec fn profile_keys_distinct(ps: Seq<(String, RawProfile)>) -> bool {
    forall|i: int, j: int| 0 <= i < j < ps.len() ==> #[trigger] ps[i].0@ != #[trigger] ps[j].0@
}

/// The decoded encoding list holds a key exactly when the raw list does.
proof fn lemma_enc_keys_match(encs: Seq<Encoding>, raw: Seq<(String, RawEncoding)>)
    requires
        encs.len() == raw.len(),
        forall|j: int| 0 <= j < raw.len() ==> (#[trigger] encs[j]).name@ == raw[j].0@,
    ensures
        forall|key: Seq<char>| #[trigger] enc_found(encs, key) <==> enc_key_known(raw, key),
{
    assert forall|key: Seq<char>| #[trigger] enc_found(encs, key) <==> enc_key_known(raw, key) by {
        if enc_found(encs, key) {
            let e = choose|e: int| 0 <= e < encs.len() && #[trigger] encs[e].name@ == key;
            assert(raw[e].0@ == key);
        }
        if enc_key_known(raw, key) {
            let e = choose|e: int| 0 <= e < raw.len() && #[trigger] raw[e].0@ == key;
            assert(encs[e].name@ == key);
        }
    }
}

/// Build the resolved database from the raw one.
///
/// The first profile of the model's deterministic order is the canonical
/// source of the feature-name list; every profile is then resolved against
/// it and the decoded encodings, and keyed by its database key. Succeeds
/// exactly when every code page decodes, the canonical profile's feature
/// list fits the bit set, no two profiles share a key, and every profile
/// resolves.
pub fn build(raw: &RawDb) -> (r: Result<Database, BuildError>)
    ensures
        r is Ok <==> {
            &&& forall|i: int|
                0 <= i < raw.encodings@.len() ==> enc_decodes(#[trigger] raw.encodings@[i].1)
            &&& (raw.profiles@.len() > 0 ==> raw.profiles@[0].1.features@.len() <= 32)
            &&& profile_keys_distinct(raw.profiles@)
            &&& forall|i: int|
                0 <= i < raw.profiles@.len() ==> raw_profile_ok(
                    #[trigger] raw.profiles@[i].1,
                    raw.encodings@,
                )
        },
        r matches Ok(db) ==> {
            &&& db.wf()
            &&& db.profiles.entries_view().len() == raw.profiles@.len()
            &&& forall|i: int|
                0 <= i < raw.profiles@.len() ==> #[trigger] db.profiles.entries_view()[i].0@
                    == raw.profiles@[i].0@
            &&& forall|i: int|
                0 <= i < raw.profiles@.len() ==> (#[trigger] db.profiles.entries_view()[i].1).name@
                    == raw.profiles@[i].1.name@
            &&& db.encodings@.len() == raw.encodings@.len()
            &&& forall|i: int|
                0 <= i < raw.encodings@.len() ==> #[trigger] db.encodings@[i].name@
                    == raw.encodings@[i].0@
            &&& db.feature_names@.len() == (if raw.profiles@.len() == 0 {
                0int
            } else {
                raw.profiles@[0].1.features@.len() as int
            })
            &&& raw.profiles@.len() > 0 ==> forall|j: int|
                0 <= j < raw.profiles@[0].1.features@.len() ==> #[trigger] db.feature_names@[j]@
                    == raw.profiles@[0].1.features@[j].0@
        },
        r is Ok ==> (forall|i: int|
            0 <= i < raw.encodings@.len() ==> enc_decodes(#[trigger] raw.encodings@[i].1)),
{
    let encodings = match build_encodings(&raw.encodings) {
        Ok(v) => v,
        Err(e) => {
            return Err(e);
        },
    };

    let mut names: Vec<String> = Vec::new();
    if raw.profiles.len() > 0 {
        let first = &raw.profiles[0].1;
        let nn = first.features.len();
        let mut i: usize = 0;
        while i < nn
            invariant
                i <= nn,
                nn == first.features@.len(),
                names@.len() == i,
                forall|j: int| 0 <= j < i ==> #[trigger] names@[j]@ == first.features@[j].0@,
            decreases nn - i,
        {
            names.push(first.features[i].0.clone());
            i += 1;
        }
    }
    let ghost n_names = names@.len();
    let ghost names_snapshot = names@;
    let registry = match FeatureRegistry::new(names) {
        Some(r) => r,
        None => {
            proof {
                assert(n_names > 32);
                assert(raw.profiles@.len() > 0 && raw.profiles@[0].1.features@.len() > 32);
            }
            return Err(BuildError::TooManyFeatures);
        },
    };

    let mut table = ProfileTable::new();
    let np = raw.profiles.len();
    let mut i: usize = 0;
    while i < np
        invariant
            i <= np,
            np == raw.profiles@.len(),
            registry.wf(),
            table.entries_view().len() == i,
            forall|a: int, b: int|
                0 <= a < b < i ==> #[trigger] table.entries_view()[a].0@
                    != #[trigger] table.entries_view()[b].0@,
            forall|j: int|
                0 <= j < i ==> #[trigger] table.entries_view()[j].0@ == raw.profiles@[j].0@,
            forall|j: int|
                0 <= j < i ==> (#[trigger] table.entries_view()[j].1).name@
                    == raw.profiles@[j].1.name@,
            forall|j: int| 0 <= j < i ==> (#[trigger] table.entries_view()[j].1).wf(),
            forall|j: int| 0 <= j < encodings@.len() ==> (#[trigger] encodings@[j]).wf(),
            encodings@.len() == raw.encodings@.len(),
            forall|j: int|
                0 <= j < raw.encodings@.len() ==> (#[trigger] encodings@[j]).name@
                    == raw.encodings@[j].0@,
            forall|j: int|
                0 <= j < i ==> raw_profile_ok(#[trigger] raw.profiles@[j].1, raw.encodings@),
        decreases np - i,
    {
        let entry = &raw.profiles[i];
        if table.get(&entry.0).is_some() {
            proof {
                let j = choose|j: int|
                    0 <= j < table.entries_view().len() && #[trigger] table.entries_view()[j].0@
                        == entry.0@;
                assert(raw.profiles@[j].0@ == raw.profiles@[i as int].0@);
                assert(!profile_keys_distinct(raw.profiles@));
            }
            return Err(BuildError::DuplicateProfile { entity: entry.0.clone() });
        }
        let profile = match build_profile(&entry.0, &entry.1, &encodings, &registry) {
            Ok(p) => p,
            Err(e) => {
                proof {
                    lemma_enc_keys_match(encodings@, raw.encodings@);
                    if raw_profile_ok(raw.profiles@[i as int].1, raw.encodings@) {
                        assert forall|j: int|
                            0 <= j < entry.1.code_pages@.len() implies enc_found(
                            encodings@,
                            #[trigger] entry.1.code_pages@[j].1@,
                        ) by {
                            assert(enc_key_known(raw.encodings@, entry.1.code_pages@[j].1@));
                        }
                        assert(pages_valid(entry.1, encodings@));
                        assert(false);
                    }
                }
                return Err(e);
            },
        };
        proof {
            lemma_enc_keys_match(encodings@, raw.encodings@);
            assert forall|j: int|
                0 <= j < entry.1.code_pages@.len() implies enc_key_known(
                raw.encodings@,
                #[trigger] entry.1.code_pages@[j].1@,
            ) by {
                assert(enc_found(encodings@, entry.1.code_pages@[j].1@));
            }
            assert(raw_profile_ok(raw.profiles@[i as int].1, raw.encodings@));
        }
        table.push(entry.0.clone(), profile);
        i += 1;
    }

    proof {
        assert forall|a: int, b: int|
            0 <= a < b < raw.profiles@.len() implies #[trigger] raw.profiles@[a].0@
            != #[trigger] raw.profiles@[b].0@ by {
            assert(table.entries_view()[a].0@ == raw.profiles@[a].0@);
            assert(table.entries_view()[b].0@ == raw.profiles@[b].0@);
        }
        assert(profile_keys_distinct(raw.profiles@));
        if raw.profiles@.len() > 0 {
            assert(raw.profiles@[0].1.features@.len() == n_names);
        }
    }
    let feature_names = registry.into_names();
    proof {
        assert(feature_names@.len() == names_snapshot.len());
        assert forall|j: int| 0 <= j < feature_names@.len() implies #[trigger] feature_names@[j]@
            == names_snapshot[j]@ by {
            assert(feature_names@.map_values(|s: String| s@)[j] == feature_names@[j]@);
            assert(names_snapshot.map_values(|s: String| s@)[j] == names_snapshot[j]@);
        }
    }
    Ok(Database { encodings, feature_names, profiles: table })
}

} // verus!
