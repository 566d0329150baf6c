//! Name resolution: the frozen table's requirement trees, with every
//! capability reference replaced by the scope and position of the record it
//! names. Resolution happens once, against the complete table, so forward
//! references resolve; a reference to a name the table lacks aborts.

use vstd::prelude::*;

use crate::expr::GConj;
use crate::table::{BuildError, CapabilityTable, Extension, GExt};

verus! {

/// The records of `v`, as mathematical values.
pub open spec fn exts_of(v: Seq<Extension>) -> Seq<GExt> {
    Seq::new(v.len(), |i: int| v[i]@)
}

/// The mathematical value of one resolved conjunction.
pub struct GRConj {
    pub api_version: Option<u32>,
    pub instance_refs: Seq<int>,
    pub device_refs: Seq<int>,
}

/// The mathematical value of one resolved capability.
pub struct GRCap {
    pub name: Seq<char>,
    pub is_instance: bool,
    pub conjs: Seq<GRConj>,
}

/// The mathematical value of a resolved registry.
pub struct GReg {
    pub instance: Seq<GRCap>,
    pub device: Seq<GRCap>,
}

/// One resolved conjunction: a version floor and the positions, per scope,
/// of the capabilities that must be enabled.
#[derive(Clone, Debug)]
pub struct RConj {
    pub api_version: Option<u32>,
    pub instance_refs: Vec<usize>,
    pub device_refs: Vec<usize>,
}

impl View for RConj {
    type V = GRConj;

    open spec fn view(&self) -> GRConj {
        GRConj {
            api_version: self.api_version,
            instance_refs: Seq::new(
                self.instance_refs@.len(),
                |k: int| self.instance_refs@[k] as int,
            ),
            device_refs: Seq::new(self.device_refs@.len(), |k: int| self.device_refs@[k] as int),
        }
    }
}

/// One capability with its requirement resolved.
#[derive(Clone, Debug)]
pub struct RCap {
    pub name: String,
    pub is_instance: bool,
    pub conjs: Vec<RConj>,
}

impl RCap {
    /// The generated field name of this capability: the `VK_` prefix dropped
    /// and the rest lower-cased.
    pub fn rust_name(&self) -> (r: String)
        ensures
            r@ == crate::text::spec_rust_name(self.name@),
    {
        crate::text::rust_name_of(self.name.as_str())
    }
}

/// The conjunction values of a resolved capability's alternatives.
pub open spec fn rconjs_of(v: Seq<RConj>) -> Seq<GRConj> {
    Seq::new(v.len(), |i: int| v[i]@)
}

impl View for RCap {
    type V = GRCap;

    open spec fn view(&self) -> GRCap {
        GRCap { name: self.name@, is_instance: self.is_instance, conjs: rconjs_of(self.conjs@) }
    }
}

/// The capability values of a scope list.
pub open spec fn rcaps_of(v: Seq<RCap>) -> Seq<GRCap> {
    Seq::new(v.len(), |i: int| v[i]@)
}

/// A resolved registry: the capabilities of each scope in table order, each
/// with index-resolved requirements.
#[derive(Clone, Debug)]
pub struct Registry {
    pub instance_caps: Vec<RCap>,
    pub device_caps: Vec<RCap>,
}

impl View for Registry {
    type V = GReg;

    open spec fn view(&self) -> GReg {
        GReg { instance: rcaps_of(self.instance_caps@), device: rcaps_of(self.device_caps@) }
    }
}

/// The names of the records of one scope, in table order.
pub open spec fn scope_names(t: Seq<GExt>, inst: bool) -> Seq<Seq<char>>
    decreases t.len(),
{
    if t.len() == 0 {
        Seq::empty()
    } else {
        let rest = scope_names(t.drop_last(), inst);
        if t.last().is_instance == inst {
            rest.push(t.last().name)
        } else {
            rest
        }
    }
}

/// The position of the first occurrence of `name` in `names`, if any.
pub open spec fn first_index(names: Seq<Seq<char>>, name: Seq<char>) -> Option<int>
    decreases names.len(),
{
    if names.len() == 0 {
        None
    } else if names[0] == name {
        Some(0int)
    } else {
        match first_index(names.subrange(1, names.len() as int), name) {
            Some(i) => Some(i + 1),
            None => None,
        }
    }
}

proof fn lemma_first_index_in_bounds(names: Seq<Seq<char>>, name: Seq<char>)
    ensures
        first_index(names, name) matches Some(i) ==> 0 <= i < names.len() && names[i] == name,
    decreases names.len(),
{
    if names.len() == 0 {
    } else if names[0] == name {
    } else {
        lemma_first_index_in_bounds(names.subrange(1, names.len() as int), name);
    }
}

/// Which record `name` resolves to: its scope and its position in that
/// scope's list; the global scope is searched first, the two scopes share no
/// name in a well-formed table.
pub open spec fn resolve_name(
    inames: Seq<Seq<char>>,
    dnames: Seq<Seq<char>>,
    name: Seq<char>,
) -> Option<(bool, int)> {
    match first_index(inames, name) {
        Some(i) => Some((true, i)),
        None => match first_index(dnames, name) {
            Some(i) => Some((false, i)),
            None => None,
        },
    }
}

/// The per-scope reference lists of one conjunction's capability names, or
/// nothing if a name resolves to no record.
pub open spec fn resolve_conj_names(
    inames: Seq<Seq<char>>,
    dnames: Seq<Seq<char>>,
    exts: Seq<Seq<char>>,
) -> Option<(Seq<int>, Seq<int>)>
    decreases exts.len(),
{
    if exts.len() == 0 {
        Some((Seq::empty(), Seq::empty()))
    } else {
        match resolve_conj_names(inames, dnames, exts.drop_last()) {
            None => None,
            Some(acc) => match resolve_name(inames, dnames, exts.last()) {
                None => None,
                Some(r) => if r.0 {
                    Some((acc.0.push(r.1), acc.1))
                } else {
                    Some((acc.0, acc.1.push(r.1)))
                },
            },
        }
    }
}

/// The resolved alternatives of one requirement tree.
pub open spec fn resolve_conjs(
    inames: Seq<Seq<char>>,
    dnames: Seq<Seq<char>>,
    conjs: Seq<GConj>,
) -> Option<Seq<GRConj>>
    decreases conjs.len(),
{
    if conjs.len() == 0 {
        Some(Seq::empty())
    } else {
        match resolve_conjs(inames, dnames, conjs.drop_last()) {
            None => None,
            Some(acc) => match resolve_conj_names(inames, dnames, conjs.last().extensions) {
                None => None,
                Some(refs) => Some(
                    acc.push(
                        GRConj {
                            api_version: conjs.last().api_version,
                            instance_refs: refs.0,
                            device_refs: refs.1,
                        },
                    ),
                ),
            },
        }
    }
}

/// The two scope lists of the whole table, resolved in table order.
pub open spec fn resolve_all(
    inames: Seq<Seq<char>>,
    dnames: Seq<Seq<char>>,
    t: Seq<GExt>,
) -> Option<(Seq<GRCap>, Seq<GRCap>)>
    decreases t.len(),
{
    if t.len() == 0 {
        Some((Seq::empty(), Seq::empty()))
    } else {
        match resolve_all(inames, dnames, t.drop_last()) {
            None => None,
            Some(acc) => match resolve_conjs(inames, dnames, t.last().conjs) {
                None => None,
                Some(cs) => {
                    let cap = GRCap {
                        name: t.last().name,
                        is_instance: t.last().is_instance,
                        conjs: cs,
                    };
                    if t.last().is_instance {
                        Some((acc.0.push(cap), acc.1))
                    } else {
                        Some((acc.0, acc.1.push(cap)))
                    }
                },
            },
        }
    }
}

/// The resolved registry of a table, or nothing if some requirement
/// references an unknown name.
pub open spec fn spec_resolve(t: Seq<GExt>) -> Option<GReg> {
    match resolve_all(scope_names(t, true), scope_names(t, false), t) {
        Some(lists) => Some(GReg { instance: lists.0, device: lists.1 }),
        None => None,
    }
}

proof fn lemma_conj_names_fail(
    inames: Seq<Seq<char>>,
    dnames: Seq<Seq<char>>,
    exts: Seq<Seq<char>>,
    k: int,
)
    requires
        0 <= k < exts.len(),
        resolve_name(inames, dnames, exts[k]) is None,
    ensures
        resolve_conj_names(inames, dnames, exts) is None,
    decreases exts.len(),
{
    if k == exts.len() - 1 {
    } else {
        lemma_conj_names_fail(inames, dnames, exts.drop_last(), k);
    }
}

proof fn lemma_conjs_fail(
    inames: Seq<Seq<char>>,
    dnames: Seq<Seq<char>>,
    conjs: Seq<GConj>,
    k: int,
)
    requires
        0 <= k < conjs.len(),
        resolve_conj_names(inames, dnames, conjs[k].extensions) is None,
    ensures
        resolve_conjs(inames, dnames, conjs) is None,
    decreases conjs.len(),
{
    if k == conjs.len() - 1 {
    } else {
        lemma_conjs_fail(inames, dnames, conjs.drop_last(), k);
    }
}

proof fn lemma_all_fail(inames: Seq<Seq<char>>, dnames: Seq<Seq<char>>, t: Seq<GExt>, k: int)
    requires
        0 <= k < t.len(),
        resolve_conjs(inames, dnames, t[k].conjs) is None,
    ensures
        resolve_all(inames, dnames, t) is None,
    decreases t.len(),
{
    if k == t.len() - 1 {
    } else {
        lemma_all_fail(inames, dnames, t.drop_last(), k);
    }
}

/// The position of the first record named `nm`, if any.
fn find_in(names: &Vec<String>, nm: &str) -> (r: Option<usize>)
    ensures
        (r matches Some(i) ==> first_index(names.deep_view(), nm@) == Some(i as int)),
        (r is None ==> first_index(names.deep_view(), nm@) is None),
{
    let ghost full = names.deep_view();
    let n = names.len();
    let mut i: usize = 0;
    proof {
        assert(full.subrange(0, n as int) =~= full);
    }
    while i < n
        invariant
            n == names@.len(),
            n == full.len(),
            full == names.deep_view(),
            i <= n,
            first_index(full, nm@) == match first_index(
                full.subrange(i as int, n as int),
                nm@,
            ) {
                Some(x) => Some(x + i),
                None => None::<int>,
            },
        decreases n - i,
    {
        let ghost suffix = full.subrange(i as int, n as int);
        proof {
            assert(suffix[0] == full[i as int]);
            assert(full[i as int] == names@[i as int]@);
            assert(suffix.subrange(1, suffix.len() as int) =~= full.subrange(
                i + 1,
                n as int,
            ));
        }
        if crate::text::str_eq(names[i].as_str(), nm) {
            return Some(i);
        }
        i += 1;
    }
    None
}

/// Whether every reference of every conjunction lies inside its scope list.
pub open spec fn reg_wf(g: GReg) -> bool {
    &&& forall|c: int, j: int| 0 <= c < g.instance.len() && 0 <= j
        < g.instance[c].conjs.len() ==> conj_wf(#[trigger] g.instance[c].conjs[j], g)
    &&& forall|c: int, j: int| 0 <= c < g.device.len() && 0 <= j < g.device[c].conjs.len()
        ==> conj_wf(#[trigger] g.device[c].conjs[j], g)
}

/// Whether one conjunction's references lie inside the registry's lists.
pub open spec fn conj_wf(c: GRConj, g: GReg) -> bool {
    &&& forall|k: int| 0 <= k < c.instance_refs.len() ==> 0 <= #[trigger] c.instance_refs[k]
        < g.instance.len()
    &&& forall|k: int| 0 <= k < c.device_refs.len() ==> 0 <= #[trigger] c.device_refs[k]
        < g.device.len()
}

/// Resolve every requirement of the frozen table. Fails exactly when some
/// requirement references a name the table lacks; the error carries that
/// name.
pub fn resolve(table: &CapabilityTable) -> (r: Result<Registry, BuildError>)
    ensures
        (r matches Ok(reg) ==> spec_resolve(exts_of(table.extensions@)) == Some(reg@)
            && reg_wf(reg@)),
        (r is Err ==> spec_resolve(exts_of(table.extensions@)) is None),
{
    let ghost t = exts_of(table.extensions@);
    let n = table.extensions.len();

    let mut inames: Vec<String> = Vec::new();
    let mut dnames: Vec<String> = Vec::new();
    let mut i: usize = 0;
    while i < n
        invariant
            n == table.extensions@.len(),
            t == exts_of(table.extensions@),
            i <= n,
            inames.deep_view() == scope_names(t.take(i as int), true),
            dnames.deep_view() == scope_names(t.take(i as int), false),
        decreases n - i,
    {
        proof {
            assert(t.take(i + 1).drop_last() =~= t.take(i as int));
            assert(t.take(i + 1).last() == t[i as int]);
            assert(t[i as int] == table.extensions@[i as int]@);
        }
        let e_name = table.extensions[i].name.clone();
        if table.extensions[i].is_instance {
            inames.push(e_name);
            proof {
                assert(inames.deep_view() =~~= scope_names(t.take(i + 1), true));
                assert(dnames.deep_view() =~~= scope_names(t.take(i + 1), false));
            }
        } else {
            dnames.push(e_name);
            proof {
                assert(inames.deep_view() =~~= scope_names(t.take(i + 1), true));
                assert(dnames.deep_view() =~~= scope_names(t.take(i + 1), false));
            }
        }
        i += 1;
    }
    proof {
        assert(t.take(n as int) =~= t);
    }

    let ghost gi = scope_names(t, true);
    let ghost gd = scope_names(t, false);

    let mut icaps: Vec<RCap> = Vec::new();
    let mut dcaps: Vec<RCap> = Vec::new();
    let mut i: usize = 0;
    while i < n
        invariant
            n == table.extensions@.len(),
            t == exts_of(table.extensions@),
            gi == scope_names(t, true),
            gd == scope_names(t, false),
            inames.deep_view() == gi,
            dnames.deep_view() == gd,
            i <= n,
            resolve_all(gi, gd, t.take(i as int)) == Some(
                (rcaps_of(icaps@), rcaps_of(dcaps@)),
            ),
            forall|c: int, j: int| 0 <= c < icaps@.len() && 0 <= j
                < icaps@[c]@.conjs.len() ==> ref_bounds(
                #[trigger] icaps@[c]@.conjs[j],
                gi.len() as int,
                gd.len() as int,
            ),
            forall|c: int, j: int| 0 <= c < dcaps@.len() && 0 <= j
                < dcaps@[c]@.conjs.len() ==> ref_bounds(
                #[trigger] dcaps@[c]@.conjs[j],
                gi.len() as int,
                gd.len() as int,
            ),
        decreases n - i,
    {
        let ext = &table.extensions[i];
        proof {
            assert(t.take(i + 1).drop_last() =~= t.take(i as int));
            assert(t.take(i + 1).last() == t[i as int]);
            assert(t[i as int] == table.extensions@[i as int]@);
        }
        let conjs = match resolve_tree(&ext.any_of, &inames, &dnames) {
            Ok(cs) => cs,
            Err(e) => {
                proof {
                    lemma_all_fail(gi, gd, t, i as int);
                }
                return Err(e);
            },
        };
        let cap = RCap { name: ext.name.clone(), is_instance: ext.is_instance, conjs };
        if ext.is_instance {
            icaps.push(cap);
            proof {
                assert(rcaps_of(icaps@).drop_last() =~~= rcaps_of(icaps@.drop_last()));
                assert(rcaps_of(icaps@) =~~= rcaps_of(icaps@.drop_last()).push(
                    icaps@.last()@,
                ));
            }
        } else {
            dcaps.push(cap);
            proof {
                assert(rcaps_of(dcaps@) =~~= rcaps_of(dcaps@.drop_last()).push(
                    dcaps@.last()@,
                ));
            }
        }
        i += 1;
    }
    proof {
        assert(t.take(n as int) =~= t);
    }
    let reg = Registry { instance_caps: icaps, device_caps: dcaps };
    proof {
        lemma_resolve_all_lens(gi, gd, t);
        assert(reg_wf(reg@));
    }
    Ok(reg)
}

/// Whether one conjunction's references lie below the given bounds.
pub open spec fn ref_bounds(c: GRConj, ilen: int, dlen: int) -> bool {
    &&& forall|k: int| 0 <= k < c.instance_refs.len() ==> 0 <= #[trigger] c.instance_refs[k]
        < ilen
    &&& forall|k: int| 0 <= k < c.device_refs.len() ==> 0 <= #[trigger] c.device_refs[k] < dlen
}

proof fn lemma_resolve_all_lens(inames: Seq<Seq<char>>, dnames: Seq<Seq<char>>, t: Seq<GExt>)
    ensures
        resolve_all(inames, dnames, t) matches Some(lists) ==> lists.0.len() == scope_names(
            t,
            true,
        ).len() && lists.1.len() == scope_names(t, false).len(),
    decreases t.len(),
{
    if t.len() == 0 {
    } else {
        lemma_resolve_all_lens(inames, dnames, t.drop_last());
    }
}

/// Resolve the capability names of one requirement tree.
fn resolve_tree(tree: &crate::expr::AnyOf, inames: &Vec<String>, dnames: &Vec<String>) -> (r:
    Result<Vec<RConj>, BuildError>)
    ensures
        (r matches Ok(cs) ==> resolve_conjs(inames.deep_view(), dnames.deep_view(), tree@)
            == Some(rconjs_of(cs@)) && forall|j: int| 0 <= j < cs@.len() ==> ref_bounds(
            #[trigger] cs@[j]@,
            inames.deep_view().len() as int,
            dnames.deep_view().len() as int,
        )),
        (r is Err ==> resolve_conjs(inames.deep_view(), dnames.deep_view(), tree@) is None),
{
    let ghost gi = inames.deep_view();
    let ghost gd = dnames.deep_view();
    let mut out: Vec<RConj> = Vec::new();
    let m = tree.0.len();
    let mut j: usize = 0;
    while j < m
        invariant
            m == tree.0@.len(),
            gi == inames.deep_view(),
            gd == dnames.deep_view(),
            j <= m,
            resolve_conjs(gi, gd, tree@.take(j as int)) == Some(rconjs_of(out@)),
            forall|k: int| 0 <= k < out@.len() ==> ref_bounds(
                #[trigger] out@[k]@,
                gi.len() as int,
                gd.len() as int,
            ),
        decreases m - j,
    {
        proof {
            assert(tree@.take(j + 1).drop_last() =~= tree@.take(j as int));
            assert(tree@.take(j + 1).last() == tree@[j as int]);
            assert(tree@[j as int] == tree.0@[j as int]@);
        }
        let conj = match resolve_conj(&tree.0[j], inames, dnames) {
            Ok(c) => c,
            Err(e) => {
                proof {
                    lemma_conjs_fail(gi, gd, tree@, j as int);
                }
                return Err(e);
            },
        };
        out.push(conj);
        proof {
            assert(rconjs_of(out@) =~~= rconjs_of(out@.drop_last()).push(out@.last()@));
        }
        j += 1;
    }
    proof {
        assert(tree@.take(m as int) =~= tree@);
    }
    Ok(out)
}

/// Resolve the capability names of one conjunction.
fn resolve_conj(conj: &crate::expr::AllOf, inames: &Vec<String>, dnames: &Vec<String>) -> (r:
    Result<RConj, BuildError>)
    ensures
        (r matches Ok(c) ==> {
            &&& c@.api_version == conj@.api_version
            &&& resolve_conj_names(inames.deep_view(), dnames.deep_view(), conj@.extensions)
                == Some((c@.instance_refs, c@.device_refs))
            &&& ref_bounds(c@, inames.deep_view().len() as int, dnames.deep_view().len() as int)
        }),
        (r is Err ==> resolve_conj_names(
            inames.deep_view(),
            dnames.deep_view(),
            conj@.extensions,
        ) is None),
{
    let ghost gi = inames.deep_view();
    let ghost gd = dnames.deep_view();
    let ghost exts = conj@.extensions;
    let mut irefs: Vec<usize> = Vec::new();
    let mut drefs: Vec<usize> = Vec::new();
    let m = conj.extensions.len();
    let mut k: usize = 0;
    while k < m
        invariant
            m == conj.extensions@.len(),
            exts == conj@.extensions,
            gi == inames.deep_view(),
            gd == dnames.deep_view(),
            k <= m,
            resolve_conj_names(gi, gd, exts.take(k as int)) == Some(
                (
                    Seq::new(irefs@.len(), |x: int| irefs@[x] as int),
                    Seq::new(drefs@.len(), |x: int| drefs@[x] as int),
                ),
            ),
            forall|x: int| 0 <= x < irefs@.len() ==> #[trigger] irefs@[x] < gi.len(),
            forall|x: int| 0 <= x < drefs@.len() ==> #[trigger] drefs@[x] < gd.len(),
        decreases m - k,
    {
        proof {
            assert(exts.take(k + 1).drop_last() =~= exts.take(k as int));
            assert(exts.take(k + 1).last() == exts[k as int]);
            assert(exts[k as int] == conj.extensions@[k as int]@);
        }
        let nm = &conj.extensions[k];
        match find_in(inames, nm.as_str()) {
            Some(idx) => {
                proof {
                    lemma_first_index_in_bounds(gi, exts[k as int]);
                }
                irefs.push(idx);
                proof {
                    assert(Seq::new(irefs@.len(), |x: int| irefs@[x] as int) =~= Seq::new(
                        irefs@.drop_last().len(),
                        |x: int| irefs@.drop_last()[x] as int,
                    ).push(idx as int));
                }
            },
            None => {
                match find_in(dnames, nm.as_str()) {
                    Some(idx) => {
                        proof {
                            lemma_first_index_in_bounds(gd, exts[k as int]);
                        }
                        drefs.push(idx);
                        proof {
                            assert(Seq::new(drefs@.len(), |x: int| drefs@[x] as int)
                                =~= Seq::new(
                                drefs@.drop_last().len(),
                                |x: int| drefs@.drop_last()[x] as int,
                            ).push(idx as int));
                        }
                    },
                    None => {
                        proof {
                            lemma_conj_names_fail(gi, gd, exts, k as int);
                        }
                        return Err(BuildError::UnknownCapability { name: nm.clone() });
                    },
                }
            },
        }
        k += 1;
    }
    proof {
        assert(exts.take(m as int) =~= exts);
    }
    Ok(RConj { api_version: conj.api_version, instance_refs: irefs, device_refs: drefs })
}

} // verus!
