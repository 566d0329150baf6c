//! The capability table: every capability record of the registry, with its
//! resolved requirement tree, frozen in name order.
//!
//! Records are accumulated first; `finish` then checks the names, sorts the
//! records and freezes them. Resolution and generation read the frozen table
//! only, so their output is a function of the registry content alone.

use vstd::prelude::*;
use vstd::utf8::is_ascii_chars;

use crate::expr::{AnyOf, GConj};
use crate::text::{lex_le, spec_format_rust_name, spec_rust_name};

verus! {

/// The mathematical value of one capability record.
pub struct GExt {
    pub name: Seq<char>,
    pub conjs: Seq<GConj>,
    pub is_instance: bool,
}

/// One capability record: a unique name, its requirement in disjunctive
/// normal form, and whether it is negotiated at the global (instance) scope
/// or per device.
#[derive(Clone, Debug)]
pub struct Extension {
    pub name: String,
    pub any_of: AnyOf,
    pub is_instance: bool,
}

impl View for Extension {
    type V = GExt;

    open spec fn view(&self) -> GExt {
        GExt { name: self.name@, conjs: self.any_of@, is_instance: self.is_instance }
    }
}

impl Extension {
    /// The generated field name of this capability: the `VK_` prefix dropped
    /// and the rest lower-cased.
    pub fn rust_name(&self) -> (r: String)
        ensures
            r@ == spec_rust_name(self.name@),
    {
        crate::text::rust_name_of(self.name.as_str())
    }

    /// A copy whose value equals this one.
    pub fn duplicate(&self) -> (r: Self)
        ensures
            r@ == self@,
    {
        let mut alts: Vec<crate::expr::AllOf> = Vec::new();
        let n = self.any_of.0.len();
        let mut i: usize = 0;
        while i < n
            invariant
                n == self.any_of.0@.len(),
                i <= n,
                alts@.len() == i,
                forall|k: int| 0 <= k < i ==> alts@[k]@ == self.any_of.0@[k]@,
            decreases n - i,
        {
            let item = self.any_of.0[i].duplicate();
            alts.push(item);
            i += 1;
        }
        let r = Extension {
            name: self.name.clone(),
            any_of: AnyOf(alts),
            is_instance: self.is_instance,
        };
        proof {
            assert(r@.conjs =~= self@.conjs);
        }
        r
    }
}

/// One colour component of a texel format: its bit width and numeric
/// interpretation.
#[derive(Clone, Debug)]
pub struct Component {
    pub bits: Option<u32>,
    pub numeric_format: String,
}

/// The flat metadata of one texel format.
#[derive(Clone, Debug)]
pub struct Format {
    pub name: String,
    pub enum_value: Option<String>,
    pub block_size: Option<u32>,
    pub texels_per_block: Option<u32>,
    pub packed: Option<u32>,
    pub r: Option<Component>,
    pub g: Option<Component>,
    pub b: Option<Component>,
    pub a: Option<Component>,
}

impl Format {
    /// An empty record for `name`: every attribute absent.
    pub fn new_named(name: String) -> (f: Self)
        ensures
            f.name@ == name@,
            f.enum_value is None,
            f.block_size is None,
            f.texels_per_block is None,
            f.packed is None,
            f.r is None,
            f.g is None,
            f.b is None,
            f.a is None,
    {
        Format {
            name,
            enum_value: None,
            block_size: None,
            texels_per_block: None,
            packed: None,
            r: None,
            g: None,
            b: None,
            a: None,
        }
    }

    /// The generated variant name of this format: the `VK_FORMAT_` prefix
    /// dropped and the rest pascal-cased.
    pub fn rust_name(&self) -> (r: String)
        ensures
            r@ == spec_format_rust_name(self.name@),
    {
        crate::text::format_rust_name_of(self.name.as_str())
    }
}

/// Whether `f` is an empty format record for `name`: every attribute absent.
pub open spec fn is_empty_format_record(f: Format, name: Seq<char>) -> bool {
    &&& f.name@ == name
    &&& f.enum_value is None
    &&& f.block_size is None
    &&& f.texels_per_block is None
    &&& f.packed is None
    &&& f.r is None
    &&& f.g is None
    &&& f.b is None
    &&& f.a is None
}

/// Everything taken from the registry: capability records and format
/// records, in registry order, not yet frozen.
pub struct Extracted {
    pub extensions: Vec<Extension>,
    pub formats: Vec<Format>,
}

impl Extracted {
    /// An empty accumulation.
    pub fn new() -> (r: Self)
        ensures
            r.extensions@ == Seq::<Extension>::empty(),
            r.formats@ == Seq::<Format>::empty(),
    {
        Extracted { extensions: Vec::new(), formats: Vec::new() }
    }

    /// Add one capability record.
    pub fn push_extension(&mut self, e: Extension)
        ensures
            final(self).extensions@ == old(self).extensions@.push(e),
            final(self).formats@ == old(self).formats@,
    {
        self.extensions.push(e);
    }

    /// The index of the format record named `name`, adding an empty record
    /// for it if none exists yet. The returned index is the first record of
    /// that name; nothing else changes.
    pub fn get_format_or_insert(&mut self, name: &str) -> (idx: usize)
        ensures
            idx < final(self).formats@.len(),
            final(self).formats@[idx as int].name@ == name@,
            forall|j: int| 0 <= j < idx ==> final(self).formats@[j].name@ != name@,
            final(self).extensions@ == old(self).extensions@,
            (exists|j: int| 0 <= j < old(self).formats@.len()
                && old(self).formats@[j].name@ == name@) ==> final(self).formats@ == old(
                self,
            ).formats@,
            (forall|j: int| 0 <= j < old(self).formats@.len()
                ==> old(self).formats@[j].name@ != name@) ==> {
                &&& idx == old(self).formats@.len()
                &&& final(self).formats@.drop_last() == old(self).formats@
                &&& is_empty_format_record(final(self).formats@.last(), name@)
            },
    {
        let n = self.formats.len();
        let mut i: usize = 0;
        while i < n
            invariant
                n == self.formats@.len(),
                i <= n,
                forall|j: int| 0 <= j < i ==> self.formats@[j].name@ != name@,
            decreases n - i,
        {
            if crate::text::str_eq(self.formats[i].name.as_str(), name) {
                return i;
            }
            i += 1;
        }
        let f = Format::new_named(name.to_owned());
        self.formats.push(f);
        proof {
            assert(self.formats@.drop_last() =~= old(self).formats@);
        }
        n
    }

    /// Freeze the accumulated capability records into a table: reject a
    /// non-ASCII or duplicated name, otherwise sort by name. Sorting is a
    /// function of the records alone, so equal registries freeze to equal
    /// tables.
    pub fn finish(self) -> (r: Result<CapabilityTable, BuildError>)
        ensures
            r.is_ok() <==> {
                &&& forall|i: int| 0 <= i < self.extensions@.len()
                    ==> is_ascii_chars(#[trigger] self.extensions@[i].name@)
                &&& forall|i: int, j: int| 0 <= i < j < self.extensions@.len()
                    ==> self.extensions@[i].name@ != self.extensions@[j].name@
            },
            (r matches Ok(t) ==> t.extensions@ == spec_sort(self.extensions@)),
    {
        let n = self.extensions.len();
        let mut i: usize = 0;
        while i < n
            invariant
                n == self.extensions@.len(),
                i <= n,
                forall|k: int| 0 <= k < i
                    ==> is_ascii_chars(#[trigger] self.extensions@[k].name@),
            decreases n - i,
        {
            if !self.extensions[i].name.as_str().is_ascii() {
                return Err(BuildError::NonAsciiName { name: self.extensions[i].name.clone() });
            }
            i += 1;
        }
        let mut i: usize = 0;
        while i < n
            invariant
                n == self.extensions@.len(),
                i <= n,
                forall|a: int, b: int| 0 <= a < b < n && a < i
                    ==> self.extensions@[a].name@ != self.extensions@[b].name@,
            decreases n - i,
        {
            let mut j: usize = i + 1;
            while j < n
                invariant
                    n == self.extensions@.len(),
                    i < n,
                    i + 1 <= j <= n,
                    forall|b: int| i < b < j ==> self.extensions@[i as int].name@
                        != self.extensions@[b].name@,
                decreases n - j,
            {
                if crate::text::str_eq(
                    self.extensions[i].name.as_str(),
                    self.extensions[j].name.as_str(),
                ) {
                    return Err(BuildError::DuplicateName {
                        name: self.extensions[i].name.clone(),
                    });
                }
                j += 1;
            }
            i += 1;
        }
        let ghost orig = self.extensions@;
        let Extracted { extensions: mut list, formats: _ } = self;
        let mut sorted: Vec<Extension> = Vec::new();
        let mut i: usize = 0;
        while i < n
            invariant
                n == orig.len(),
                i <= n,
                list@ == orig.subrange(i as int, n as int),
                sorted@ == spec_sort(orig.take(i as int)),
            decreases n - i,
        {
            let e = list.remove(0);
            proof {
                assert(orig.subrange(i as int, n as int)[0] == orig[i as int]);
                assert(orig.subrange(i as int, n as int).remove(0) =~= orig.subrange(
                    i + 1,
                    n as int,
                ));
                assert(orig.take(i + 1).drop_last() =~= orig.take(i as int));
                assert(orig.take(i + 1).last() == orig[i as int]);
            }
            insert_sorted(&mut sorted, e);
            i += 1;
        }
        proof {
            assert(orig.take(n as int) =~= orig);
        }
        Ok(CapabilityTable { extensions: sorted })
    }
}

/// A registry that cannot be frozen or resolved; generation aborts.
#[derive(Clone, Debug)]
pub enum BuildError {
    /// A capability name holds a character outside ASCII.
    NonAsciiName { name: String },
    /// Two capability records carry the same name.
    DuplicateName { name: String },
    /// A requirement references a capability name that the table lacks.
    UnknownCapability { name: String },
}

/// `s` with `e` inserted before the first record whose name does not come
/// earlier than `e`'s.
pub open spec fn spec_insert(e: Extension, s: Seq<Extension>) -> Seq<Extension>
    decreases s.len(),
{
    if s.len() == 0 {
        seq![e]
    } else if lex_le(e.name@, s[0].name@) {
        seq![e] + s
    } else {
        seq![s[0]] + spec_insert(e, s.subrange(1, s.len() as int))
    }
}

/// `s` sorted by name: each record inserted in turn into the sorted rest.
pub open spec fn spec_sort(s: Seq<Extension>) -> Seq<Extension>
    decreases s.len(),
{
    if s.len() == 0 {
        Seq::empty()
    } else {
        spec_insert(s.last(), spec_sort(s.drop_last()))
    }
}

/// Where the first admissible position is `j`, inserting splits `s` there.
proof fn lemma_spec_insert_at(e: Extension, s: Seq<Extension>, j: int)
    requires
        0 <= j <= s.len(),
        forall|k: int| 0 <= k < j ==> !lex_le(e.name@, s[k].name@),
        j < s.len() ==> lex_le(e.name@, s[j].name@),
    ensures
        spec_insert(e, s) == s.insert(j, e),
    decreases j,
{
    if j == 0 {
        if s.len() == 0 {
            assert(spec_insert(e, s) =~= s.insert(0, e));
        } else {
            assert(spec_insert(e, s) =~= s.insert(0, e));
        }
    } else {
        let s1 = s.subrange(1, s.len() as int);
        lemma_spec_insert_at(e, s1, j - 1);
        assert(spec_insert(e, s) == seq![s[0]] + spec_insert(e, s1));
        assert(seq![s[0]] + s1.insert(j - 1, e) =~= s.insert(j, e));
    }
}

/// Records ordered by name: every earlier record's name comes no later.
pub open spec fn sorted_by_name(s: Seq<Extension>) -> bool {
    forall|i: int, j: int| 0 <= i < j < s.len() ==> lex_le(
        #[trigger] s[i].name@,
        #[trigger] s[j].name@,
    )
}

/// Lexicographic order is total: of any two names, one comes no later.
proof fn lemma_lex_le_total(a: Seq<char>, b: Seq<char>)
    ensures
        lex_le(a, b) || lex_le(b, a),
    decreases a.len(),
{
    if a.len() == 0 {
    } else if b.len() == 0 {
    } else if a[0] != b[0] {
    } else {
        lemma_lex_le_total(a.subrange(1, a.len() as int), b.subrange(1, b.len() as int));
    }
}

/// Lexicographic order is transitive.
proof fn lemma_lex_le_trans(a: Seq<char>, b: Seq<char>, c: Seq<char>)
    requires
        lex_le(a, b),
        lex_le(b, c),
    ensures
        lex_le(a, c),
    decreases a.len(),
{
    if a.len() == 0 {
    } else if b.len() == 0 {
    } else if c.len() == 0 {
    } else if a[0] == b[0] && b[0] == c[0] {
        lemma_lex_le_trans(
            a.subrange(1, a.len() as int),
            b.subrange(1, b.len() as int),
            c.subrange(1, c.len() as int),
        );
    }
}

/// The position at which `spec_insert` places `e` in `s`.
spec fn insert_pos(e: Extension, s: Seq<Extension>) -> int
    decreases s.len(),
{
    if s.len() == 0 {
        0
    } else if lex_le(e.name@, s[0].name@) {
        0
    } else {
        1 + insert_pos(e, s.subrange(1, s.len() as int))
    }
}

proof fn lemma_insert_pos_properties(e: Extension, s: Seq<Extension>)
    ensures
        0 <= insert_pos(e, s) <= s.len(),
        forall|k: int| 0 <= k < insert_pos(e, s) ==> !lex_le(e.name@, #[trigger] s[k].name@),
        insert_pos(e, s) < s.len() ==> lex_le(e.name@, s[insert_pos(e, s)].name@),
    decreases s.len(),
{
    if s.len() == 0 {
    } else if lex_le(e.name@, s[0].name@) {
    } else {
        let s1 = s.subrange(1, s.len() as int);
        lemma_insert_pos_properties(e, s1);
        assert forall|k: int| 0 <= k < insert_pos(e, s) implies !lex_le(
            e.name@,
            #[trigger] s[k].name@,
        ) by {
            if k > 0 {
                assert(s[k] == s1[k - 1]);
            }
        }
    }
}

/// Inserting into a name-sorted sequence keeps it sorted, lengthens it by
/// one, and adds exactly the inserted record.
proof fn lemma_spec_insert_sorted(e: Extension, s: Seq<Extension>)
    requires
        sorted_by_name(s),
    ensures
        sorted_by_name(spec_insert(e, s)),
        spec_insert(e, s).len() == s.len() + 1,
        spec_insert(e, s).to_multiset() == s.to_multiset().insert(e),
{
    broadcast use vstd::seq_lib::group_to_multiset_ensures;
    broadcast use vstd::seq_lib::lemma_multiset_commutative;

    let ip = insert_pos(e, s);
    lemma_insert_pos_properties(e, s);
    lemma_spec_insert_at(e, s, ip);
    let t = s.insert(ip, e);
    s.insert_ensures(ip, e);
    assert forall|i: int, j: int| 0 <= i < j < t.len() implies lex_le(
        #[trigger] t[i].name@,
        #[trigger] t[j].name@,
    ) by {
        if i < ip && j == ip {
            lemma_lex_le_total(e.name@, s[i].name@);
        } else if i < ip && j > ip {
            assert(lex_le(s[i].name@, s[j - 1].name@));
        } else if i == ip && j > ip {
            if j - 1 == ip {
                assert(lex_le(e.name@, s[ip].name@));
            } else {
                lemma_lex_le_trans(e.name@, s[ip].name@, s[j - 1].name@);
            }
        } else if i > ip {
            assert(lex_le(s[i - 1].name@, s[j - 1].name@));
        }
    }
    assert(t == s.subrange(0, ip).push(e) + s.subrange(ip, s.len() as int));
    assert(s.subrange(0, ip) + s.subrange(ip, s.len() as int) =~= s);
    assert(t.to_multiset() =~= s.to_multiset().insert(e));
}

/// Freezing sorts: the sorted table holds exactly the accumulated records,
/// in name order. With the unique names that `finish` enforces, that order
/// is the one deterministic arrangement of the registry's records.
pub proof fn lemma_spec_sort_sorted(s: Seq<Extension>)
    ensures
        sorted_by_name(spec_sort(s)),
        spec_sort(s).len() == s.len(),
        spec_sort(s).to_multiset() == s.to_multiset(),
    decreases s.len(),
{
    broadcast use vstd::seq_lib::group_to_multiset_ensures;

    if s.len() == 0 {
        assert(spec_sort(s).to_multiset() =~= s.to_multiset());
    } else {
        lemma_spec_sort_sorted(s.drop_last());
        lemma_spec_insert_sorted(s.last(), spec_sort(s.drop_last()));
        assert(s =~= s.drop_last().push(s.last()));
        assert(s.drop_last().push(s.last()).to_multiset() =~= s.drop_last().to_multiset().insert(
            s.last(),
        ));
    }
}

/// Insert `e` into the name-sorted vector `out`, keeping it sorted.
fn insert_sorted(out: &mut Vec<Extension>, e: Extension)
    ensures
        final(out)@ == spec_insert(e, old(out)@),
{
    let n = out.len();
    let mut j: usize = 0;
    while j < n && !crate::text::str_le(e.name.as_str(), out[j].name.as_str())
        invariant
            n == out@.len(),
            j <= n,
            forall|k: int| 0 <= k < j ==> !lex_le(e.name@, out@[k].name@),
        decreases n - j,
    {
        j += 1;
    }
    proof {
        lemma_spec_insert_at(e, out@, j as int);
    }
    out.insert(j, e);
}

/// The frozen capability table: records sorted by name, unique, ASCII.
pub struct CapabilityTable {
    pub extensions: Vec<Extension>,
}

impl CapabilityTable {
    /// The index of the record named `name`, if any; the first one if the
    /// table were ever to hold several.
    pub fn find(&self, name: &str) -> (r: Option<usize>)
        ensures
            (r matches Some(i) ==> i < self.extensions@.len()
                && self.extensions@[i as int].name@ == name@ && (forall|k: int|
                0 <= k < i ==> self.extensions@[k].name@ != name@)),
            (r is None ==> forall|k: int| 0 <= k < self.extensions@.len()
                ==> self.extensions@[k].name@ != name@),
    {
        let n = self.extensions.len();
        let mut i: usize = 0;
        while i < n
            invariant
                n == self.extensions@.len(),
                i <= n,
                forall|k: int| 0 <= k < i ==> self.extensions@[k].name@ != name@,
            decreases n - i,
        {
            if crate::text::str_eq(self.extensions[i].name.as_str(), name) {
                return Some(i);
            }
            i += 1;
        }
        None
    }

    /// How many records the table holds.
    pub fn len(&self) -> (r: usize)
        ensures
            r == self.extensions@.len(),
    {
        self.extensions.len()
    }
}

} // verus!
