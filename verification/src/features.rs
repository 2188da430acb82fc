//! Feature flags: a fixed-width bit set over a closed, ordered list of
//! feature names, and the registry that assigns each name its stable bit
//! position.

use vstd::prelude::*;

verus! {

/// The mask of the `cut` feature.
pub const CUT: u32 = 1;

/// The mask of the `graphics` feature.
pub const GRAPHICS: u32 = 2;

/// The mask of the `qr code` feature.
pub const QR_CODE: u32 = 4;

/// The mask of the `star commands` feature.
pub const STAR_COMMANDS: u32 = 32;

/// The specific features that are supported by a printer profile, packed
/// into a fixed-width bit set. The raw integer is never part of the public
/// surface: flags are read and written through the accessor and builder
/// methods, so bits can be repacked without breaking callers.
#[derive(Copy, Clone, Debug, PartialEq, Eq, Structural)]
pub struct Features(pub(crate) u32);

impl Features {
    /// The bit set as a mathematical value.
    pub closed spec fn bits(self) -> u32 {
        self.0
    }

    /// The bit set that `bits` becomes when the bits of `flag` are switched
    /// on or off.
    pub open spec fn spec_with(bits: u32, flag: u32, on: bool) -> u32 {
        if on {
            bits | flag
        } else {
            bits & !flag
        }
    }

    /// Create a new `Features` with no features enabled.
    pub fn new() -> (r: Self)
        ensures
            r.bits() == 0u32,
    {
        Features(0)
    }

    /// Whether every bit of `flag` is enabled.
    pub fn contains(&self, flag: u32) -> (r: bool)
        ensures
            r == (self.bits() & flag == flag),
    {
        self.0 & flag == flag
    }

    /// Switch the bits of `flag` on or off.
    pub fn _with(self, flag: u32, on: bool) -> (r: Self)
        ensures
            r.bits() == Self::spec_with(self.bits(), flag, on),
    {
        if on {
            Features(self.0 | flag)
        } else {
            Features(self.0 & !flag)
        }
    }

    /// Check if the `cut` feature is supported.
    pub fn is_cut(&self) -> (r: bool)
        ensures
            r == (self.bits() & CUT == CUT),
    {
        self.contains(CUT)
    }

    /// Set the `cut` feature to be on or off.
    pub fn with_cut(self, on: bool) -> (r: Self)
        ensures
            r.bits() == Self::spec_with(self.bits(), CUT, on),
    {
        self._with(CUT, on)
    }

    /// Check if the `graphics` feature is supported.
    pub fn is_graphics(&self) -> (r: bool)
        ensures
            r == (self.bits() & GRAPHICS == GRAPHICS),
    {
        self.contains(GRAPHICS)
    }

    /// Set the `graphics` feature to be on or off.
    pub fn with_graphics(self, on: bool) -> (r: Self)
        ensures
            r.bits() == Self::spec_with(self.bits(), GRAPHICS, on),
    {
        self._with(GRAPHICS, on)
    }

    /// Check if the `qr code` feature is supported.
    pub fn is_qr_code(&self) -> (r: bool)
        ensures
            r == (self.bits() & QR_CODE == QR_CODE),
    {
        self.contains(QR_CODE)
    }

    /// Set the `qr code` feature to be on or off.
    pub fn with_qr_code(self, on: bool) -> (r: Self)
        ensures
            r.bits() == Self::spec_with(self.bits(), QR_CODE, on),
    {
        self._with(QR_CODE, on)
    }

    /// Check if the `star commands` feature is supported.
    pub fn is_star_commands(&self) -> (r: bool)
        ensures
            r == (self.bits() & STAR_COMMANDS == STAR_COMMANDS),
    {
        self.contains(STAR_COMMANDS)
    }

    /// Set the `star commands` feature to be on or off.
    pub fn with_star_commands(self, on: bool) -> (r: Self)
        ensures
            r.bits() == Self::spec_with(self.bits(), STAR_COMMANDS, on),
    {
        self._with(STAR_COMMANDS, on)
    }
}

/// Law: enabling a flag and then disabling it leaves exactly the bit set
/// with the flag disabled; on a fresh bit set the round trip restores it.
pub proof fn lemma_enable_disable(bits: u32, flag: u32)
    ensures
        Features::spec_with(Features::spec_with(bits, flag, true), flag, false)
            == Features::spec_with(bits, flag, false),
        Features::spec_with(Features::spec_with(0u32, flag, true), flag, false) == 0u32,
{
    assert((bits | flag) & !flag == bits & !flag) by (bit_vector);
    assert((0u32 | flag) & !flag == 0u32) by (bit_vector);
}

/// Law: switching two disjoint flags is order-independent.
pub proof fn lemma_with_commutes(bits: u32, f1: u32, f2: u32, on1: bool, on2: bool)
    requires
        f1 & f2 == 0,
    ensures
        Features::spec_with(Features::spec_with(bits, f1, on1), f2, on2) == Features::spec_with(
            Features::spec_with(bits, f2, on2),
            f1,
            on1,
        ),
{
    if on1 && on2 {
        assert((bits | f1) | f2 == (bits | f2) | f1) by (bit_vector);
    } else if on1 && !on2 {
        assert((bits | f1) & !f2 == (bits & !f2) | f1) by (bit_vector)
            requires
                f1 & f2 == 0u32,
        ;
    } else if !on1 && on2 {
        assert((bits & !f1) | f2 == (bits | f2) & !f1) by (bit_vector)
            requires
                f1 & f2 == 0u32,
        ;
    } else {
        assert((bits & !f1) & !f2 == (bits & !f2) & !f1) by (bit_vector);
    }
}

/// The bit position assigned to `name`: the first index of the canonical
/// name list that holds it, if any.
pub open spec fn spec_bit_of(names: Seq<Seq<char>>, name: Seq<char>) -> Option<int>
    decreases names.len(),
{
    if names.len() == 0 {
        None
    } else if names[0] == name {
        Some(0int)
    } else {
        match spec_bit_of(names.drop_first(), name) {
            None => None,
            Some(i) => Some(i + 1),
        }
    }
}

/// A first-match witness pins `spec_bit_of` down.
proof fn lemma_bit_of_witness(names: Seq<Seq<char>>, name: Seq<char>, i: int)
    requires
        0 <= i < names.len(),
        names[i] == name,
        forall|j: int| 0 <= j < i ==> names[j] != name,
    ensures
        spec_bit_of(names, name) == Some(i),
    decreases names.len(),
{
    if i > 0 {
        assert(names[0] != name);
        assert(names.drop_first()[i - 1] == name);
        assert forall|j: int| 0 <= j < i - 1 implies names.drop_first()[j] != name by {
            assert(names.drop_first()[j] == names[j + 1]);
        }
        lemma_bit_of_witness(names.drop_first(), name, i - 1);
    }
}

/// A name held by no entry of the list has no bit.
proof fn lemma_bit_of_absent(names: Seq<Seq<char>>, name: Seq<char>)
    requires
        forall|j: int| 0 <= j < names.len() ==> names[j] != name,
    ensures
        spec_bit_of(names, name) is None,
    decreases names.len(),
{
    if names.len() > 0 {
        assert forall|j: int| 0 <= j < names.drop_first().len() implies names.drop_first()[j]
            != name by {
            assert(names.drop_first()[j] == names[j + 1]);
        }
        lemma_bit_of_absent(names.drop_first(), name);
    }
}

/// The bit set that packs a sequence of per-feature booleans against a
/// canonical name list: each name that is declared true and has a bit
/// position contributes that bit; every other declaration has no effect.
pub open spec fn spec_pack(names: Seq<Seq<char>>, decl: Seq<(Seq<char>, bool)>) -> u32
    decreases decl.len(),
{
    if decl.len() == 0 {
        0u32
    } else {
        let prev = spec_pack(names, decl.drop_last());
        let p = decl.last();
        if p.1 {
            match spec_bit_of(names, p.0) {
                Some(i) => prev | (1u32 << (i as u32)),
                None => prev,
            }
        } else {
            prev
        }
    }
}

/// Assigns each named boolean feature a stable bit position: the `i`-th name
/// of the canonical list, taken from the reference profile's declaration
/// order, owns bit `i`.
pub struct FeatureRegistry {
    names: Vec<String>,
}

impl FeatureRegistry {
    /// The canonical feature names, by bit position.
    pub closed spec fn names_view(self) -> Seq<Seq<char>> {
        self.names@.map_values(|s: String| s@)
    }

    /// Every name fits in the fixed-width bit set.
    pub open spec fn wf(self) -> bool {
        self.names_view().len() <= 32
    }

    /// Build a registry over the given canonical name list, in order.
    /// Fails exactly when there are more names than the bit set has bits.
    pub fn new(names: Vec<String>) -> (r: Option<Self>)
        ensures
            r matches Some(reg) <==> names@.len() <= 32,
            r matches Some(reg) ==> reg.names_view() == names@.map_values(|s: String| s@)
                && reg.wf(),
    {
        if names.len() <= 32 {
            Some(FeatureRegistry { names })
        } else {
            None
        }
    }

    /// Hand the canonical name list back, in bit order.
    pub fn into_names(self) -> (r: Vec<String>)
        ensures
            r@.map_values(|s: String| s@) == self.names_view(),
            r@.len() == self.names_view().len(),
    {
        self.names
    }

    /// How many names the registry assigned bits to.
    pub fn len(&self) -> (n: usize)
        ensures
            n == self.names_view().len(),
    {
        self.names.len()
    }

    /// The canonical name owning bit `i`.
    pub fn name_at<'a>(&'a self, i: usize) -> (r: &'a String)
        requires
            i < self.names_view().len(),
        ensures
            r@ == self.names_view()[i as int],
    {
        &self.names[i]
    }

    /// The bit position of `name`: the first index of the canonical list
    /// holding it, and nothing when the name is not canonical.
    pub fn bit_of(&self, name: &String) -> (r: Option<usize>)
        ensures
            match r {
                Some(i) => spec_bit_of(self.names_view(), name@) == Some(i as int),
                None => spec_bit_of(self.names_view(), name@) is None,
            },
    {
        let n = self.names.len();
        let mut i: usize = 0;
        while i < n
            invariant
                i <= n,
                n == self.names_view().len(),
                forall|j: int| 0 <= j < i ==> self.names_view()[j] != name@,
            decreases n - i,
        {
            proof {
                assert(self.names_view()[i as int] == self.names@[i as int]@);
            }
            if self.names[i].eq(name) {
                proof {
                    lemma_bit_of_witness(self.names_view(), name@, i as int);
                }
                return Some(i);
            }
            i += 1;
        }
        proof {
            lemma_bit_of_absent(self.names_view(), name@);
        }
        None
    }

    /// Pack a profile's per-feature booleans into a bit set: each declared
    /// name is looked up in the canonical list and, when declared true, its
    /// bit is switched on. A name absent from the canonical list has no
    /// effect, whatever it declares.
    pub fn pack(&self, decl: &Vec<(String, bool)>) -> (r: Features)
        requires
            self.wf(),
        ensures
            r.bits() == spec_pack(
                self.names_view(),
                decl@.map_values(|p: (String, bool)| (p.0@, p.1)),
            ),
    {
        let ghost dv = decl@.map_values(|p: (String, bool)| (p.0@, p.1));
        let n = decl.len();
        let mut bits: u32 = 0;
        let mut i: usize = 0;
        while i < n
            invariant
                i <= n,
                n == decl@.len(),
                self.wf(),
                dv == decl@.map_values(|p: (String, bool)| (p.0@, p.1)),
                bits == spec_pack(self.names_view(), dv.subrange(0, i as int)),
            decreases n - i,
        {
            let ghost prefix = dv.subrange(0, i as int);
            let ghost prefix1 = dv.subrange(0, i + 1);
            if decl[i].1 {
                match self.bit_of(&decl[i].0) {
                    Some(b) => {
                        assert(b < 32) by {
                            lemma_bit_of_bound(self.names_view(), decl@[i as int].0@);
                        }
                        bits = bits | (1u32 << (b as u32));
                    },
                    None => {},
                }
            }
            proof {
                assert(prefix1.drop_last() =~= prefix);
                assert(prefix1.last() == dv[i as int]);
            }
            i += 1;
        }
        proof {
            assert(dv.subrange(0, n as int) =~= dv);
        }
        Features(bits)
    }
}

/// A bit position handed out by `spec_bit_of` indexes into the name list.
proof fn lemma_bit_of_bound(names: Seq<Seq<char>>, name: Seq<char>)
    requires
        spec_bit_of(names, name) is Some,
    ensures
        0 <= spec_bit_of(names, name).unwrap() < names.len(),
    decreases names.len(),
{
    if names.len() > 0 && names[0] != name {
        lemma_bit_of_bound(names.drop_first(), name);
    }
}

} // verus!
