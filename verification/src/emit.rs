//! The code emitter: walks the resolved database and renders deterministic,
//! dependency-free static declarations — an enumerated type per encoding, a
//! feature-flag API, one constant record per profile with its sorted map
//! literals, and a static name-to-profile lookup table.
//!
//! Rendering is a pure function of the resolved model, so re-running on
//! unchanged input produces byte-identical output.

use vstd::prelude::*;
use vstd::string::StringExecFns;

use crate::db::Database;
use crate::profile::Color;
use crate::profile::Encoding;
use crate::profile::FontInfo;
use crate::profile::Media;
use crate::profile::Profile;

verus! {

/// The SHOUTY_SNAKE_CASE form of a string, as heck computes it.
pub uninterp spec fn shouty_snake_of(s: Seq<char>) -> Seq<char>;

/// The snake_case form of a string, as heck computes it.
pub uninterp spec fn snake_of(s: Seq<char>) -> Seq<char>;

/// Relies on heck's `ToShoutySnakeCase` for `str`: the conversion is a pure
/// function of the input characters.
#[verifier::external_body]
fn to_shouty_snake(s: &String) -> (r: String)
    ensures
        r@ == shouty_snake_of(s@),
{
    heck::ToShoutySnakeCase::to_shouty_snake_case(s.as_str())
}

/// Relies on heck's `ToSnakeCase` for `str`: the conversion is a pure
/// function of the input characters.
#[verifier::external_body]
fn to_snake(s: &String) -> (r: String)
    ensures
        r@ == snake_of(s@),
{
    heck::ToSnakeCase::to_snake_case(s.as_str())
}

/// Relies on `String::push`: it appends exactly the given character.
#[verifier::external_body]
fn push_char(s: &mut String, c: char)
    ensures
        final(s)@ == old(s)@.push(c),
{
    s.push(c);
}

#[verifier::external_type_specification]
#[verifier::external_body]
#[verifier::reject_recursive_types(K)]
/// The builder for a static `phf` map, declared so that verified code can
/// carry it between the trusted calls below.
pub struct ExPhfCodegenMap<'a, K>(phf_codegen::Map<'a, K>);

/// The (key, value) entries pushed into a `phf` map builder so far.
pub uninterp spec fn phf_entries(m: phf_codegen::Map<'static, String>) -> Seq<(Seq<char>, Seq<char>)>;

/// The source text that `phf_codegen` renders for a static map holding the
/// given entries. The generator is seeded with a fixed constant, so the text
/// is a function of the entries alone.
pub uninterp spec fn phf_code_of(entries: Seq<(Seq<char>, Seq<char>)>) -> Seq<char>;

/// Relies on `phf_codegen::Map::new`: the builder starts with no entries.
#[verifier::external_body]
fn phf_map_new() -> (m: phf_codegen::Map<'static, String>)
    ensures
        phf_entries(m) == Seq::<(Seq<char>, Seq<char>)>::empty(),
{
    phf_codegen::Map::new()
}

/// Relies on `phf_codegen::Map::entry`: it appends one (key, value) pair to
/// the builder's entry lists, the value kept verbatim.
#[verifier::external_body]
fn phf_map_entry(m: &mut phf_codegen::Map<'static, String>, key: &String, value: &String)
    ensures
        phf_entries(*final(m)) == phf_entries(*old(m)).push((key@, value@)),
{
    m.entry(key.clone(), value.clone());
}

/// Relies on `phf_codegen::Map::build` and the `Display` rendering of the
/// map it returns; `build` panics on a duplicate key, which the caller's
/// precondition rules out.
#[verifier::external_body]
fn phf_map_build(m: &phf_codegen::Map<'static, String>) -> (r: String)
    requires
        forall|i: int, j: int|
            0 <= i < j < phf_entries(*m).len() ==> #[trigger] phf_entries(*m)[i].0
                != #[trigger] phf_entries(*m)[j].0,
    ensures
        r@ == phf_code_of(phf_entries(*m)),
{
    format!("{}", m.build())
}

/// The decimal digit character for a value below ten.
pub open spec fn digit_char(d: nat) -> char {
    if d == 0 {
        '0'
    } else if d == 1 {
        '1'
    } else if d == 2 {
        '2'
    } else if d == 3 {
        '3'
    } else if d == 4 {
        '4'
    } else if d == 5 {
        '5'
    } else if d == 6 {
        '6'
    } else if d == 7 {
        '7'
    } else if d == 8 {
        '8'
    } else {
        '9'
    }
}

/// The canonical decimal rendering of a number, most significant digit
/// first, with no leading zeros.
pub open spec fn dec_rep(n: nat) -> Seq<char>
    decreases n,
{
    if n < 10 {
        seq![digit_char(n)]
    } else {
        dec_rep(n / 10).push(digit_char(n % 10))
    }
}

fn digit_exec(d: u32) -> (c: char)
    requires
        d < 10,
    ensures
        c == digit_char(d as nat),
{
    match d {
        0 => '0',
        1 => '1',
        2 => '2',
        3 => '3',
        4 => '4',
        5 => '5',
        6 => '6',
        7 => '7',
        8 => '8',
        _ => '9',
    }
}

/// Render a number as its canonical decimal digits.
pub fn u32_to_dec(n: u32) -> (r: String)
    ensures
        r@ == dec_rep(n as nat),
    decreases n,
{
    if n < 10 {
        let mut s = String::new();
        push_char(&mut s, digit_exec(n));
        proof {
            assert(Seq::<char>::empty().push(digit_char(n as nat)) =~= dec_rep(n as nat));
        }
        s
    } else {
        let mut s = u32_to_dec(n / 10);
        push_char(&mut s, digit_exec(n % 10));
        s
    }
}

/// The text of a string with the characters that a double-quoted source
/// literal cannot hold bare preceded by a backslash.
pub open spec fn escaped(s: Seq<char>) -> Seq<char>
    decreases s.len(),
{
    if s.len() == 0 {
        Seq::empty()
    } else {
        escaped(s.drop_last()) + (if s.last() == '"' || s.last() == '\\' {
            seq!['\\', s.last()]
        } else {
            seq![s.last()]
        })
    }
}

/// The double-quoted source literal denoting a string.
pub open spec fn str_lit(s: Seq<char>) -> Seq<char> {
    seq!['"'] + escaped(s) + seq!['"']
}

/// Render a string as the double-quoted source literal denoting it.
pub fn emit_str_lit(s: &String) -> (r: String)
    ensures
        r@ == str_lit(s@),
{
    let mut out = String::new();
    push_char(&mut out, '"');
    let st = s.as_str();
    let n = vstd::string::StrSliceExecFns::unicode_len(st);
    let mut i: usize = 0;
    while i < n
        invariant
            i <= n,
            n == st@.len(),
            st@ == s@,
            out@ == seq!['"'] + escaped(st@.subrange(0, i as int)),
        decreases n - i,
    {
        let c = vstd::string::StrSliceExecFns::get_char(st, i);
        if c == '"' || c == '\\' {
            push_char(&mut out, '\\');
        }
        push_char(&mut out, c);
        proof {
            let p1 = st@.subrange(0, i + 1);
            assert(p1.drop_last() =~= st@.subrange(0, i as int));
            assert(p1.last() == st@[i as int]);
            assert(out@ =~= seq!['"'] + escaped(p1));
        }
        i += 1;
    }
    push_char(&mut out, '"');
    proof {
        assert(st@.subrange(0, n as int) =~= st@);
        assert(out@ =~= str_lit(s@));
    }
    out
}

/// The body of the encoding enumeration: one variant per encoding, named by
/// the SHOUTY_SNAKE_CASE form of its key.
pub open spec fn enum_body(encs: Seq<Encoding>) -> Seq<char>
    decreases encs.len(),
{
    if encs.len() == 0 {
        Seq::empty()
    } else {
        enum_body(encs.drop_last()) + "    "@ + shouty_snake_of(encs.last().name@) + ",\n"@
    }
}

/// The text of the closed encoding enumeration.
pub open spec fn enum_text(encs: Seq<Encoding>) -> Seq<char> {
    "pub enum Encoding {\n"@ + enum_body(encs) + "}\n"@
}

/// Render the closed encoding enumeration, one variant per encoding in
/// source order.
pub fn emit_encoding_enum(encs: &Vec<Encoding>) -> (r: String)
    ensures
        r@ == enum_text(encs@),
{
    let mut out = String::from_str("pub enum Encoding {\n");
    let n = encs.len();
    let mut i: usize = 0;
    while i < n
        invariant
            i <= n,
            n == encs@.len(),
            out@ == "pub enum Encoding {\n"@ + enum_body(encs@.subrange(0, i as int)),
        decreases n - i,
    {
        out.append("    ");
        let v = to_shouty_snake(&encs[i].name);
        out.append(v.as_str());
        out.append(",\n");
        proof {
            let p1 = encs@.subrange(0, i + 1);
            assert(p1.drop_last() =~= encs@.subrange(0, i as int));
            assert(p1.last() == encs@[i as int]);
        }
        i += 1;
    }
    out.append("}\n");
    proof {
        assert(encs@.subrange(0, n as int) =~= encs@);
    }
    out
}

/// The decimal code points of a character table, comma-separated.
pub open spec fn chars_text(cs: Seq<char>) -> Seq<char>
    decreases cs.len(),
{
    if cs.len() == 0 {
        Seq::empty()
    } else {
        chars_text(cs.drop_last()) + dec_rep((cs.last() as u32) as nat) + ", "@
    }
}

/// Render a character table as its decimal code points.
fn emit_chars(v: &Vec<char>) -> (r: String)
    ensures
        r@ == chars_text(v@),
{
    let mut out = String::new();
    let n = v.len();
    let mut i: usize = 0;
    while i < n
        invariant
            i <= n,
            n == v@.len(),
            out@ == chars_text(v@.subrange(0, i as int)),
        decreases n - i,
    {
        let d = u32_to_dec(v[i] as u32);
        out.append(d.as_str());
        out.append(", ");
        proof {
            let p1 = v@.subrange(0, i + 1);
            assert(p1.drop_last() =~= v@.subrange(0, i as int));
            assert(p1.last() == v@[i as int]);
        }
        i += 1;
    }
    proof {
        assert(v@.subrange(0, n as int) =~= v@);
    }
    out
}

/// The match arm handing out one encoding's table, or nothing for an
/// encoding without one.
pub open spec fn data_arm(e: Encoding) -> Seq<char> {
    match e.data {
        Some(d) => "        Encoding::"@ + shouty_snake_of(e.name@) + " => Some(&["@ + chars_text(
            d@,
        ) + "]),\n"@,
        None => Seq::empty(),
    }
}

/// The match arms of the encoding-data lookup, in source order.
pub open spec fn data_body(encs: Seq<Encoding>) -> Seq<char>
    decreases encs.len(),
{
    if encs.len() == 0 {
        Seq::empty()
    } else {
        data_body(encs.drop_last()) + data_arm(encs.last())
    }
}

/// The text of the lookup function from encoding variant to its table.
pub open spec fn data_fn_text(encs: Seq<Encoding>) -> Seq<char> {
    "pub fn encoding_data(enc: Encoding) -> Option<&'static [u32; 128]> {\n    match enc {\n"@
        + data_body(encs) + "        _ => None,\n    }\n}\n"@
}

/// Render the lookup function from encoding variant to its decoded table.
pub fn emit_encoding_data(encs: &Vec<Encoding>) -> (r: String)
    ensures
        r@ == data_fn_text(encs@),
{
    let mut out = String::from_str(
        "pub fn encoding_data(enc: Encoding) -> Option<&'static [u32; 128]> {\n    match enc {\n",
    );
    let n = encs.len();
    let mut i: usize = 0;
    while i < n
        invariant
            i <= n,
            n == encs@.len(),
            out@ == "pub fn encoding_data(enc: Encoding) -> Option<&'static [u32; 128]> {\n    match enc {\n"@
                + data_body(encs@.subrange(0, i as int)),
        decreases n - i,
    {
        let e = &encs[i];
        match e.data() {
            Some(d) => {
                out.append("        Encoding::");
                let v = to_shouty_snake(&e.name);
                out.append(v.as_str());
                out.append(" => Some(&[");
                let cs = emit_chars(d);
                out.append(cs.as_str());
                out.append("]),\n");
            },
            None => {},
        }
        proof {
            let p1 = encs@.subrange(0, i + 1);
            assert(p1.drop_last() =~= encs@.subrange(0, i as int));
            assert(p1.last() == encs@[i as int]);
        }
        i += 1;
    }
    out.append("        _ => None,\n    }\n}\n");
    proof {
        assert(encs@.subrange(0, n as int) =~= encs@);
    }
    out
}

/// One feature's mask constant: bit `i` for the `i`-th canonical name.
pub open spec fn feature_const(name: Seq<char>, i: int) -> Seq<char> {
    "pub const "@ + shouty_snake_of(name) + ": u32 = 1 << "@ + dec_rep(i as nat) + ";\n"@
}

/// The mask constants of every canonical feature, in bit order.
pub open spec fn feature_consts(names: Seq<Seq<char>>) -> Seq<char>
    decreases names.len(),
{
    if names.len() == 0 {
        Seq::empty()
    } else {
        feature_consts(names.drop_last()) + feature_const(names.last(), names.len() - 1)
    }
}

/// One feature's accessor and builder methods.
pub open spec fn feature_methods(name: Seq<char>) -> Seq<char> {
    "    pub fn is_"@ + snake_of(name) + "(&self) -> bool { self.contains("@ + shouty_snake_of(
        name,
    ) + ") }\n    pub fn with_"@ + snake_of(name) + "(self, on: bool) -> Self { self._with("@
        + shouty_snake_of(name) + ", on) }\n"@
}

/// The accessor and builder methods of every canonical feature.
pub open spec fn feature_methods_body(names: Seq<Seq<char>>) -> Seq<char>
    decreases names.len(),
{
    if names.len() == 0 {
        Seq::empty()
    } else {
        feature_methods_body(names.drop_last()) + feature_methods(names.last())
    }
}

/// The text of the feature-flag API: the mask constants and one accessor
/// and builder pair per canonical feature.
pub open spec fn features_text(names: Seq<Seq<char>>) -> Seq<char> {
    feature_consts(names) + "impl Features {\n"@ + feature_methods_body(names) + "}\n"@
}

/// The views of a name list.
pub open spec fn name_views(names: Seq<String>) -> Seq<Seq<char>> {
    names.map_values(|s: String| s@)
}

/// Render the feature-flag API over the canonical feature names.
pub fn emit_features(names: &Vec<String>) -> (r: String)
    requires
        names@.len() <= 32,
    ensures
        r@ == features_text(name_views(names@)),
{
    let mut out = String::new();
    let n = names.len();
    let mut i: usize = 0;
    while i < n
        invariant
            i <= n,
            n == names@.len(),
            n <= 32,
            out@ == feature_consts(name_views(names@.subrange(0, i as int))),
        decreases n - i,
    {
        out.append("pub const ");
        let v = to_shouty_snake(&names[i]);
        out.append(v.as_str());
        out.append(": u32 = 1 << ");
        let d = u32_to_dec(i as u32);
        out.append(d.as_str());
        out.append(";\n");
        proof {
            let p1 = name_views(names@.subrange(0, i + 1));
            assert(p1.drop_last() =~= name_views(names@.subrange(0, i as int)));
            assert(p1.last() == names@[i as int]@);
        }
        i += 1;
    }
    proof {
        assert(names@.subrange(0, n as int) =~= names@);
        assert(name_views(names@.subrange(0, n as int)) =~= name_views(names@));
    }
    out.append("impl Features {\n");
    let ghost after_consts = out@;
    let mut j: usize = 0;
    while j < n
        invariant
            j <= n,
            n == names@.len(),
            after_consts == feature_consts(name_views(names@)) + "impl Features {\n"@,
            out@ == after_consts + feature_methods_body(name_views(names@.subrange(0, j as int))),
        decreases n - j,
    {
        let sn = to_snake(&names[j]);
        let sh = to_shouty_snake(&names[j]);
        out.append("    pub fn is_");
        out.append(sn.as_str());
        out.append("(&self) -> bool { self.contains(");
        out.append(sh.as_str());
        out.append(") }\n    pub fn with_");
        out.append(sn.as_str());
        out.append("(self, on: bool) -> Self { self._with(");
        out.append(sh.as_str());
        out.append(", on) }\n");
        proof {
            let p1 = name_views(names@.subrange(0, j + 1));
            assert(p1.drop_last() =~= name_views(names@.subrange(0, j as int)));
            assert(p1.last() == names@[j as int]@);
        }
        j += 1;
    }
    out.append("}\n");
    proof {
        assert(names@.subrange(0, n as int) =~= names@);
        assert(name_views(names@.subrange(0, n as int)) =~= name_views(names@));
    }
    out
}

/// The builder-call chain enabling every canonical feature whose bit is set,
/// from bit `i` on.
pub open spec fn chain_text(names: Seq<Seq<char>>, bits: u32, i: int) -> Seq<char>
    decreases names.len() - i,
{
    if i < 0 || i >= names.len() {
        Seq::empty()
    } else {
        (if bits & (1u32 << (i as u32)) == (1u32 << (i as u32)) {
            ".with_"@ + snake_of(names[i]) + "(true)"@
        } else {
            Seq::empty()
        }) + chain_text(names, bits, i + 1)
    }
}

/// The text of one sorted map literal entry.
pub open spec fn entry_text(k: u8, val: Seq<char>) -> Seq<char> {
    "("@ + dec_rep(k as nat) + ", "@ + val + "), "@
}

/// The entries of a code-page map literal: each value names the encoding's
/// enumeration variant.
pub open spec fn pages_body(s: Seq<(u8, Encoding)>) -> Seq<char>
    decreases s.len(),
{
    if s.len() == 0 {
        Seq::empty()
    } else {
        pages_body(s.drop_last()) + entry_text(
            s.last().0,
            "Encoding::"@ + shouty_snake_of(s.last().1.name@),
        )
    }
}

/// The variant path denoting an ink color.
pub open spec fn color_text(c: Color) -> Seq<char> {
    match c {
        Color::Black => "Color::Black"@,
        Color::Red => "Color::Red"@,
        Color::Alternate => "Color::Alternate"@,
    }
}

/// The entries of a color map literal.
pub open spec fn colors_body(s: Seq<(u8, Color)>) -> Seq<char>
    decreases s.len(),
{
    if s.len() == 0 {
        Seq::empty()
    } else {
        colors_body(s.drop_last()) + entry_text(s.last().0, color_text(s.last().1))
    }
}

/// The entries of a font map literal.
pub open spec fn fonts_body(s: Seq<(u8, FontInfo)>) -> Seq<char>
    decreases s.len(),
{
    if s.len() == 0 {
        Seq::empty()
    } else {
        fonts_body(s.drop_last()) + entry_text(
            s.last().0,
            "FontInfo { columns: "@ + dec_rep(s.last().1.columns as nat) + " }"@,
        )
    }
}

/// The expression denoting an optional number.
pub open spec fn opt_num_text(v: Option<u16>) -> Seq<char> {
    match v {
        None => "None"@,
        Some(x) => "Some("@ + dec_rep(x as nat) + ")"@,
    }
}

/// The expression denoting resolved media information.
pub open spec fn media_text(m: Media) -> Seq<char> {
    "Media { dpi: "@ + opt_num_text(m.dpi) + ", width: "@ + (match m.width {
        None => "None"@,
        Some(w) => "Some(Width { mm: "@ + dec_rep(w.mm as nat) + ", px: "@ + dec_rep(w.px as nat)
            + " })"@,
    }) + " }"@
}

/// The constant record declaration of one profile.
pub open spec fn profile_text(key: Seq<char>, p: Profile, names: Seq<Seq<char>>) -> Seq<char> {
    "pub static "@ + shouty_snake_of(key) + ": Profile = Profile {\n    name: "@ + str_lit(p.name@)
        + ",\n    vendor: "@ + str_lit(p.vendor@) + ",\n    features: Features::new()"@
        + chain_text(names, p.features.bits(), 0) + ",\n    code_pages: IntMap::from_entries(&["@
        + pages_body(p.code_pages.entries_view()) + "]),\n    colors: IntMap::from_entries(&["@
        + colors_body(p.colors.entries_view()) + "]),\n    fonts: IntMap::from_entries(&["@
        + fonts_body(p.fonts.entries_view()) + "]),\n    media: "@ + media_text(p.media)
        + ",\n};\n"@
}

/// Render one profile's constant record.
#[verifier::rlimit(50)]
pub fn emit_profile(key: &String, p: &Profile, names: &Vec<String>) -> (r: String)
    requires
        names@.len() <= 32,
    ensures
        r@ == profile_text(key@, *p, name_views(names@)),
{
    let mut out = String::from_str("pub static ");
    let sh = to_shouty_snake(key);
    out.append(sh.as_str());
    out.append(": Profile = Profile {\n    name: ");
    let nm = emit_str_lit(&p.name);
    out.append(nm.as_str());
    out.append(",\n    vendor: ");
    let vd = emit_str_lit(&p.vendor);
    out.append(vd.as_str());
    out.append(",\n    features: Features::new()");

    let ghost before_chain = out@;
    let n = names.len();
    let mut i: usize = 0;
    while i < n
        invariant
            i <= n,
            n == names@.len(),
            n <= 32,
            before_chain + chain_text(name_views(names@), p.features.bits(), 0) == out@
                + chain_text(name_views(names@), p.features.bits(), i as int),
        decreases n - i,
    {
        proof {
            assert(name_views(names@)[i as int] == names@[i as int]@);
        }
        let mask: u32 = 1u32 << (i as u32);
        if p.features.contains(mask) {
            out.append(".with_");
            let sn = to_snake(&names[i]);
            out.append(sn.as_str());
            out.append("(true)");
        }
        i += 1;
    }
    out.append(",\n    code_pages: IntMap::from_entries(&[");

    let ghost before_pages = out@;
    let np = p.code_pages.len();
    let mut pi: usize = 0;
    while pi < np
        invariant
            pi <= np,
            np == p.code_pages.entries_view().len(),
            out@ == before_pages + pages_body(p.code_pages.entries_view().subrange(0, pi as int)),
        decreases np - pi,
    {
        let e = p.code_pages.entry_at(pi);
        out.append("(");
        let d = u32_to_dec(e.0 as u32);
        out.append(d.as_str());
        out.append(", ");
        out.append("Encoding::");
        let sh = to_shouty_snake(&e.1.name);
        out.append(sh.as_str());
        out.append("), ");
        proof {
            let p1 = p.code_pages.entries_view().subrange(0, pi + 1);
            assert(p1.drop_last() =~= p.code_pages.entries_view().subrange(0, pi as int));
            assert(p1.last() == p.code_pages.entries_view()[pi as int]);
        }
        pi += 1;
    }
    proof {
        assert(p.code_pages.entries_view().subrange(0, np as int) =~= p.code_pages.entries_view());
    }
    out.append("]),\n    colors: IntMap::from_entries(&[");

    let ghost before_colors = out@;
    let nc = p.colors.len();
    let mut ci: usize = 0;
    while ci < nc
        invariant
            ci <= nc,
            nc == p.colors.entries_view().len(),
            out@ == before_colors + colors_body(p.colors.entries_view().subrange(0, ci as int)),
        decreases nc - ci,
    {
        let e = p.colors.entry_at(ci);
        out.append("(");
        let d = u32_to_dec(e.0 as u32);
        out.append(d.as_str());
        out.append(", ");
        match *e.1 {
            Color::Black => out.append("Color::Black"),
            Color::Red => out.append("Color::Red"),
            Color::Alternate => out.append("Color::Alternate"),
        }
        out.append("), ");
        proof {
            let p1 = p.colors.entries_view().subrange(0, ci + 1);
            assert(p1.drop_last() =~= p.colors.entries_view().subrange(0, ci as int));
            assert(p1.last() == p.colors.entries_view()[ci as int]);
        }
        ci += 1;
    }
    proof {
        assert(p.colors.entries_view().subrange(0, nc as int) =~= p.colors.entries_view());
    }
    out.append("]),\n    fonts: IntMap::from_entries(&[");

    let ghost before_fonts = out@;
    let nf = p.fonts.len();
    let mut fi: usize = 0;
    while fi < nf
        invariant
            fi <= nf,
            nf == p.fonts.entries_view().len(),
            out@ == before_fonts + fonts_body(p.fonts.entries_view().subrange(0, fi as int)),
        decreases nf - fi,
    {
        let e = p.fonts.entry_at(fi);
        out.append("(");
        let d = u32_to_dec(e.0 as u32);
        out.append(d.as_str());
        out.append(", ");
        out.append("FontInfo { columns: ");
        let c = u32_to_dec(e.1.columns as u32);
        out.append(c.as_str());
        out.append(" }");
        out.append("), ");
        proof {
            let p1 = p.fonts.entries_view().subrange(0, fi + 1);
            assert(p1.drop_last() =~= p.fonts.entries_view().subrange(0, fi as int));
            assert(p1.last() == p.fonts.entries_view()[fi as int]);
        }
        fi += 1;
    }
    proof {
        assert(p.fonts.entries_view().subrange(0, nf as int) =~= p.fonts.entries_view());
    }
    out.append("]),\n    media: ");
    out.append("Media { dpi: ");

    match p.media.dpi {
        None => out.append("None"),
        Some(x) => {
            out.append("Some(");
            let d = u32_to_dec(x as u32);
            out.append(d.as_str());
            out.append(")");
        },
    }
    out.append(", width: ");
    match p.media.width {
        None => out.append("None"),
        Some(w) => {
            out.append("Some(Width { mm: ");
            let m = u32_to_dec(w.mm);
            out.append(m.as_str());
            out.append(", px: ");
            let x = u32_to_dec(w.px as u32);
            out.append(x.as_str());
            out.append(" })");
        },
    }
    out.append(" }");
    out.append(",\n};\n");
    out
}

/// The constant records of every profile, in table order.
pub open spec fn profiles_text(entries: Seq<(String, Profile)>, names: Seq<Seq<char>>) -> Seq<char>
    decreases entries.len(),
{
    if entries.len() == 0 {
        Seq::empty()
    } else {
        profiles_text(entries.drop_last(), names) + profile_text(
            entries.last().0@,
            entries.last().1,
            names,
        )
    }
}

/// The (key, value) entries of the name-to-profile table: each profile's
/// key maps to a reference to its constant record.
pub open spec fn table_entries(entries: Seq<(String, Profile)>) -> Seq<(Seq<char>, Seq<char>)> {
    entries.map_values(|e: (String, Profile)| (e.0@, "&"@ + shouty_snake_of(e.0@)))
}

/// The text of the static name-to-profile lookup table.
pub open spec fn table_text(entries: Seq<(String, Profile)>) -> Seq<char> {
    "pub static ALL_PROFILES: phf::Map<&'static str, &'static Profile> = "@ + phf_code_of(
        table_entries(entries),
    ) + ";\n"@
}

/// The full emitted text of a resolved database: the encoding enumeration,
/// its data lookup, the feature-flag API, every profile's constant record,
/// and the name-to-profile table.
pub open spec fn database_text(db: Database) -> Seq<char> {
    enum_text(db.encodings@) + data_fn_text(db.encodings@) + features_text(
        name_views(db.feature_names@),
    ) + profiles_text(db.profiles.entries_view(), name_views(db.feature_names@)) + table_text(
        db.profiles.entries_view(),
    )
}

/// Render the whole resolved database as deterministic static declarations.
///
/// The output is a function of the resolved model alone, so re-running on
/// unchanged input produces byte-identical text.
pub fn emit_database(db: &Database) -> (r: String)
    requires
        db.wf(),
    ensures
        r@ == database_text(*db),
{
    let mut out = emit_encoding_enum(&db.encodings);
    let data = emit_encoding_data(&db.encodings);
    out.append(data.as_str());
    let feats = emit_features(&db.feature_names);
    out.append(feats.as_str());

    let n = db.profiles.len();
    let mut i: usize = 0;
    let ghost before_profiles = out@;
    while i < n
        invariant
            i <= n,
            n == db.profiles.entries_view().len(),
            db.wf(),
            out@ == before_profiles + profiles_text(
                db.profiles.entries_view().subrange(0, i as int),
                name_views(db.feature_names@),
            ),
        decreases n - i,
    {
        let e = db.profiles.at(i);
        let pt = emit_profile(e.0, e.1, &db.feature_names);
        out.append(pt.as_str());
        proof {
            let p1 = db.profiles.entries_view().subrange(0, i + 1);
            assert(p1.drop_last() =~= db.profiles.entries_view().subrange(0, i as int));
            assert(p1.last() == db.profiles.entries_view()[i as int]);
        }
        i += 1;
    }
    proof {
        assert(db.profiles.entries_view().subrange(0, n as int) =~= db.profiles.entries_view());
    }

    out.append("pub static ALL_PROFILES: phf::Map<&'static str, &'static Profile> = ");
    let mut m = phf_map_new();
    let mut j: usize = 0;
    while j < n
        invariant
            j <= n,
            n == db.profiles.entries_view().len(),
            db.wf(),
            phf_entries(m) == table_entries(db.profiles.entries_view().subrange(0, j as int)),
        decreases n - j,
    {
        let e = db.profiles.at(j);
        let mut value = String::from_str("&");
        let sh = to_shouty_snake(e.0);
        value.append(sh.as_str());
        phf_map_entry(&mut m, e.0, &value);
        proof {
            let p1 = table_entries(db.profiles.entries_view().subrange(0, j + 1));
            assert(p1.drop_last() =~= table_entries(
                db.profiles.entries_view().subrange(0, j as int),
            ));
            assert(p1.last() == (db.profiles.entries_view()[j as int].0@, "&"@ + shouty_snake_of(
                db.profiles.entries_view()[j as int].0@,
            )));
        }
        j += 1;
    }
    proof {
        assert(db.profiles.entries_view().subrange(0, n as int) =~= db.profiles.entries_view());
        assert forall|a: int, b: int|
            0 <= a < b < phf_entries(m).len() implies #[trigger] phf_entries(m)[a].0
            != #[trigger] phf_entries(m)[b].0 by {
            assert(phf_entries(m)[a].0 == db.profiles.entries_view()[a].0@);
            assert(phf_entries(m)[b].0 == db.profiles.entries_view()[b].0@);
        }
    }
    let code = phf_map_build(&m);
    out.append(code.as_str());
    out.append(";\n");
    out
}

} // verus!
