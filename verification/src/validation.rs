//! Validation of a capability set against the resolved requirement trees:
//! an enabled capability whose requirement no alternative satisfies is
//! reported, with the unmet alternatives spelled out per scope.

use vstd::prelude::*;

use crate::registry::{GRCap, GRConj, GReg, Registry};
use crate::set::CapabilitySet;
use crate::text::spec_rust_name;
use crate::version::{version_le, Version};

verus! {

/// One way to satisfy an unmet requirement: a version to reach, or
/// capabilities to enable, or both.
#[derive(Clone, Debug)]
pub struct Requires {
    pub api_version: Option<Version>,
    pub instance_extensions: Vec<String>,
    pub device_extensions: Vec<String>,
}

impl Requires {
    /// The demand "reach `api_version`".
    pub fn api_version(api_version: Version) -> (r: Self)
        ensures
            r.api_version == Some(api_version),
            r.instance_extensions@.len() == 0,
            r.device_extensions@.len() == 0,
    {
        Requires {
            api_version: Some(api_version),
            instance_extensions: Vec::new(),
            device_extensions: Vec::new(),
        }
    }

    /// The demand "enable these global-scope capabilities".
    pub fn instance_extensions(instance_extensions: Vec<String>) -> (r: Self)
        ensures
            r.api_version is None,
            r.instance_extensions == instance_extensions,
            r.device_extensions@.len() == 0,
    {
        Requires { api_version: None, instance_extensions, device_extensions: Vec::new() }
    }

    /// The demand "enable these per-device capabilities".
    pub fn device_extensions(device_extensions: Vec<String>) -> (r: Self)
        ensures
            r.api_version is None,
            r.instance_extensions@.len() == 0,
            r.device_extensions == device_extensions,
    {
        Requires { api_version: None, instance_extensions: Vec::new(), device_extensions }
    }
}

/// A failed validation: which setting is at fault, what is wrong, the stable
/// diagnostic identifiers, and the alternatives any one of which would have
/// satisfied the requirement.
#[derive(Clone, Debug)]
pub struct ValidationError {
    pub context: String,
    pub problem: String,
    pub vuids: Vec<String>,
    pub requires_one_of: Vec<Requires>,
}

/// The identifiers joined with a comma and a space between each pair.
pub open spec fn spec_join_comma(v: Seq<Seq<char>>) -> Seq<char>
    decreases v.len(),
{
    if v.len() == 0 {
        Seq::empty()
    } else if v.len() == 1 {
        v[0]
    } else {
        spec_join_comma(v.drop_last()) + ", "@ + v.last()
    }
}

impl ValidationError {
    /// The failure on one line: the offending setting, what is wrong, and
    /// the diagnostic identifiers.
    pub fn message(&self) -> (r: String)
        ensures
            r@ == self.context@ + ": "@ + self.problem@ + " (VUIDs: "@ + spec_join_comma(
                self.vuids.deep_view(),
            ) + ")"@,
    {
        let mut out = String::new();
        out.append(self.context.as_str());
        out.append(": ");
        out.append(self.problem.as_str());
        out.append(" (VUIDs: ");
        let ghost pre = out@;
        let ghost gv = self.vuids.deep_view();
        let n = self.vuids.len();
        let mut i: usize = 0;
        proof {
            assert(gv.take(0).len() == 0);
            assert(out@ =~= pre + spec_join_comma(gv.take(0)));
        }
        while i < n
            invariant
                n == self.vuids@.len(),
                gv == self.vuids.deep_view(),
                i <= n,
                out@ == pre + spec_join_comma(gv.take(i as int)),
            decreases n - i,
        {
            if i > 0 {
                out.append(", ");
            }
            out.append(self.vuids[i].as_str());
            proof {
                assert(gv.take(i + 1).drop_last() =~= gv.take(i as int));
                assert(gv.take(i + 1).last() == gv[i as int]);
                assert(gv[i as int] == self.vuids@[i as int]@);
                if i == 0 {
                    assert(gv.take(1)[0] == gv[0]);
                    assert(out@ =~= pre + spec_join_comma(gv.take(1)));
                } else {
                    assert(out@ =~= pre + spec_join_comma(gv.take(i + 1)));
                }
            }
            i += 1;
        }
        proof {
            assert(gv.take(n as int) =~= gv);
        }
        out.append(")");
        proof {
            assert(out@ =~= self.context@ + ": "@ + self.problem@ + " (VUIDs: "@
                + spec_join_comma(gv) + ")"@);
        }
        out
    }
}

/// Either an error of the surrounding operation or a validation failure.
#[derive(Debug)]
pub enum Validated<E> {
    Error(E),
    Validation(ValidationError),
}

/// Whether the active version reaches the floor; an absent floor is no
/// constraint.
pub open spec fn version_ok(floor: Option<u32>, v: Version) -> bool {
    match floor {
        None => true,
        Some(n) => version_le(Version { major: 1, minor: n, patch: 0 }, v),
    }
}

/// Whether one alternative is satisfied: the version floor is reached and
/// every referenced capability is enabled in the set of its own scope.
pub open spec fn conj_sat(c: GRConj, iflags: Seq<bool>, dflags: Seq<bool>, v: Version) -> bool {
    &&& version_ok(c.api_version, v)
    &&& forall|k: int| 0 <= k < c.instance_refs.len() ==> iflags[#[trigger] c.instance_refs[k]]
    &&& forall|k: int| 0 <= k < c.device_refs.len() ==> dflags[#[trigger] c.device_refs[k]]
}

/// Whether the capability at `idx` of its scope raises no failure: it is
/// disabled, or it has no requirement, or some alternative is satisfied.
pub open spec fn cap_ok(
    cap: GRCap,
    enabled: bool,
    iflags: Seq<bool>,
    dflags: Seq<bool>,
    v: Version,
) -> bool {
    enabled && cap.conjs.len() > 0 ==> exists|j: int|
        0 <= j < cap.conjs.len() && conj_sat(#[trigger] cap.conjs[j], iflags, dflags, v)
}

/// Whether `rq` spells out the alternative `c`: the version floor carried
/// over, and the referenced capability names listed per scope.
pub open spec fn requires_matches(rq: Requires, c: GRConj, g: GReg) -> bool {
    &&& rq.api_version == match c.api_version {
        Some(n) => Some(Version { major: 1, minor: n, patch: 0 }),
        None => None::<Version>,
    }
    &&& rq.instance_extensions.deep_view() == Seq::new(
        c.instance_refs.len(),
        |k: int| g.instance[c.instance_refs[k]].name,
    )
    &&& rq.device_extensions.deep_view() == Seq::new(
        c.device_refs.len(),
        |k: int| g.device[c.device_refs[k]].name,
    )
}

/// Whether `e` reports the unmet requirement of `cap` as validation states
/// it: the offending setting named by the capability's field name, the fixed
/// description and diagnostic identifier, and one `Requires` per
/// alternative.
pub open spec fn failure_matches(e: ValidationError, cap: GRCap, g: GReg, inst: bool) -> bool {
    &&& e.context@ == "desc.enabled_extensions."@ + spec_rust_name(cap.name)
    &&& e.problem@ == "Extension is enabled, but requirements aren't met."@
    &&& e.vuids@.len() == 1
    &&& e.vuids@[0]@ == if inst {
        "VUID-vkCreateInstance-ppEnabledExtensionNames-01388"@
    } else {
        "VUID-vkCreateDevice-ppEnabledExtensionNames-01387"@
    }
    &&& e.requires_one_of@.len() == cap.conjs.len()
    &&& forall|j: int| 0 <= j < cap.conjs.len() ==> requires_matches(
        #[trigger] e.requires_one_of@[j],
        cap.conjs[j],
        g,
    )
}

/// Whether every capability of the scope raises no failure.
pub open spec fn all_caps_ok(
    caps: Seq<GRCap>,
    own: Seq<bool>,
    iflags: Seq<bool>,
    dflags: Seq<bool>,
    v: Version,
) -> bool {
    forall|c: int| 0 <= c < caps.len() ==> cap_ok(#[trigger] caps[c], own[c], iflags, dflags, v)
}

/// Whether `e` reports the first capability of the scope, in table order,
/// that is enabled yet has no satisfied alternative.
pub open spec fn offender_reported(
    caps: Seq<GRCap>,
    own: Seq<bool>,
    iflags: Seq<bool>,
    dflags: Seq<bool>,
    v: Version,
    e: ValidationError,
    g: GReg,
    inst: bool,
) -> bool {
    exists|c: int|
        #![trigger caps[c]]
        {
            &&& 0 <= c < caps.len()
            &&& !cap_ok(caps[c], own[c], iflags, dflags, v)
            &&& forall|b: int| 0 <= b < c ==> cap_ok(#[trigger] caps[b], own[b], iflags, dflags, v)
            &&& failure_matches(e, caps[c], g, inst)
        }
}

/// Whether one alternative is satisfied, decided over the two scope sets.
fn conj_sat_exec(
    conj: &crate::registry::RConj,
    iset: &CapabilitySet,
    dset: &CapabilitySet,
    v: &Version,
) -> (r: bool)
    requires
        forall|k: int| 0 <= k < conj@.instance_refs.len() ==> 0 <= #[trigger] conj@.instance_refs[k]
            < iset@.len(),
        forall|k: int| 0 <= k < conj@.device_refs.len() ==> 0 <= #[trigger] conj@.device_refs[k]
            < dset@.len(),
    ensures
        r == conj_sat(conj@, iset@, dset@, *v),
{
    match conj.api_version {
        Some(n) => {
            let floor = Version { major: 1, minor: n, patch: 0 };
            if !floor.le(v) {
                return false;
            }
        },
        None => {},
    }
    let ni = conj.instance_refs.len();
    let mut k: usize = 0;
    while k < ni
        invariant
            ni == conj.instance_refs@.len(),
            k <= ni,
            forall|x: int| 0 <= x < conj@.instance_refs.len() ==> 0
                <= #[trigger] conj@.instance_refs[x] < iset@.len(),
            forall|x: int| 0 <= x < k ==> iset@[#[trigger] conj@.instance_refs[x]],
        decreases ni - k,
    {
        proof {
            assert(conj@.instance_refs[k as int] == conj.instance_refs@[k as int] as int);
        }
        if !iset.flags[conj.instance_refs[k]] {
            return false;
        }
        k += 1;
    }
    let nd = conj.device_refs.len();
    let mut k: usize = 0;
    while k < nd
        invariant
            nd == conj.device_refs@.len(),
            k <= nd,
            forall|x: int| 0 <= x < conj@.device_refs.len() ==> 0
                <= #[trigger] conj@.device_refs[x] < dset@.len(),
            forall|x: int| 0 <= x < k ==> dset@[#[trigger] conj@.device_refs[x]],
        decreases nd - k,
    {
        proof {
            assert(conj@.device_refs[k as int] == conj.device_refs@[k as int] as int);
        }
        if !dset.flags[conj.device_refs[k]] {
            return false;
        }
        k += 1;
    }
    true
}

/// The `Requires` records spelling out each alternative of `cap`.
fn build_requires(cap: &crate::registry::RCap, reg: &Registry) -> (out: Vec<Requires>)
    requires
        forall|j: int| 0 <= j < cap@.conjs.len() ==> crate::registry::ref_bounds(
            #[trigger] cap@.conjs[j],
            reg@.instance.len() as int,
            reg@.device.len() as int,
        ),
    ensures
        out@.len() == cap@.conjs.len(),
        forall|j: int| 0 <= j < cap@.conjs.len() ==> requires_matches(
            #[trigger] out@[j],
            cap@.conjs[j],
            reg@,
        ),
{
    let mut out: Vec<Requires> = Vec::new();
    let m = cap.conjs.len();
    let mut j: usize = 0;
    while j < m
        invariant
            m == cap.conjs@.len(),
            j <= m,
            out@.len() == j,
            forall|x: int| 0 <= x < cap@.conjs.len() ==> crate::registry::ref_bounds(
                #[trigger] cap@.conjs[x],
                reg@.instance.len() as int,
                reg@.device.len() as int,
            ),
            forall|x: int| 0 <= x < j ==> requires_matches(
                #[trigger] out@[x],
                cap@.conjs[x],
                reg@,
            ),
        decreases m - j,
    {
        let conj = &cap.conjs[j];
        proof {
            assert(cap@.conjs[j as int] == conj@);
        }
        let api_version = match conj.api_version {
            Some(n) => Some(Version { major: 1, minor: n, patch: 0 }),
            None => None,
        };
        let ni = conj.instance_refs.len();
        let mut inames: Vec<String> = Vec::new();
        let mut k: usize = 0;
        while k < ni
            invariant
                ni == conj.instance_refs@.len(),
                k <= ni,
                forall|x: int| 0 <= x < conj@.instance_refs.len() ==> 0
                    <= #[trigger] conj@.instance_refs[x] < reg@.instance.len(),
                inames@.len() == k,
                forall|x: int| 0 <= x < k ==> inames@[x]@ == reg@.instance[
                    #[trigger] conj@.instance_refs[x]
                ].name,
            decreases ni - k,
        {
            proof {
                assert(conj@.instance_refs[k as int] == conj.instance_refs@[k as int] as int);
                assert(reg@.instance[conj@.instance_refs[k as int]] == reg.instance_caps@[
                    conj.instance_refs@[k as int] as int
                ]@);
            }
            inames.push(reg.instance_caps[conj.instance_refs[k]].name.clone());
            k += 1;
        }
        let nd = conj.device_refs.len();
        let mut dnames: Vec<String> = Vec::new();
        let mut k: usize = 0;
        while k < nd
            invariant
                nd == conj.device_refs@.len(),
                k <= nd,
                forall|x: int| 0 <= x < conj@.device_refs.len() ==> 0
                    <= #[trigger] conj@.device_refs[x] < reg@.device.len(),
                dnames@.len() == k,
                forall|x: int| 0 <= x < k ==> dnames@[x]@ == reg@.device[
                    #[trigger] conj@.device_refs[x]
                ].name,
            decreases nd - k,
        {
            proof {
                assert(conj@.device_refs[k as int] == conj.device_refs@[k as int] as int);
                assert(reg@.device[conj@.device_refs[k as int]] == reg.device_caps@[
                    conj.device_refs@[k as int] as int
                ]@);
            }
            dnames.push(reg.device_caps[conj.device_refs[k]].name.clone());
            k += 1;
        }
        let rq = Requires {
            api_version,
            instance_extensions: inames,
            device_extensions: dnames,
        };
        proof {
            assert(rq.instance_extensions.deep_view() =~= Seq::new(
                conj@.instance_refs.len(),
                |x: int| reg@.instance[conj@.instance_refs[x]].name,
            ));
            assert(rq.device_extensions.deep_view() =~= Seq::new(
                conj@.device_refs.len(),
                |x: int| reg@.device[conj@.device_refs[x]].name,
            ));
            assert(requires_matches(rq, cap@.conjs[j as int], reg@));
        }
        out.push(rq);
        j += 1;
    }
    out
}

impl CapabilitySet {
    /// Check every enabled capability of one scope against its requirement.
    ///
    /// `self` is the set under validation; when its scope is the global
    /// (instance) one, `is_instance` is true and `other` is the per-device
    /// set, otherwise the other way round. Same-scope references are checked
    /// against `self`, other-scope references against `other`. Success comes
    /// exactly when every enabled capability with a requirement has a
    /// satisfied alternative; otherwise the first offending capability in
    /// table order is reported.
    pub fn validate(
        &self,
        reg: &Registry,
        is_instance: bool,
        other: &CapabilitySet,
        api_version: Version,
    ) -> (r: Result<(), ValidationError>)
        requires
            crate::registry::reg_wf(reg@),
            is_instance ==> self@.len() == reg@.instance.len() && other@.len()
                == reg@.device.len(),
            !is_instance ==> self@.len() == reg@.device.len() && other@.len()
                == reg@.instance.len(),
        ensures
            ({
                let caps = if is_instance {
                    reg@.instance
                } else {
                    reg@.device
                };
                let iflags = if is_instance {
                    self@
                } else {
                    other@
                };
                let dflags = if is_instance {
                    other@
                } else {
                    self@
                };
                &&& (r.is_ok() <==> all_caps_ok(caps, self@, iflags, dflags, api_version))
                &&& (r matches Err(e) ==> offender_reported(
                    caps,
                    self@,
                    iflags,
                    dflags,
                    api_version,
                    e,
                    reg@,
                    is_instance,
                ))
            }),
    {
        let caps = if is_instance {
            &reg.instance_caps
        } else {
            &reg.device_caps
        };
        let ghost gcaps = if is_instance {
            reg@.instance
        } else {
            reg@.device
        };
        let n = caps.len();
        let mut c: usize = 0;
        while c < n
            invariant
                n == caps@.len(),
                gcaps == crate::registry::rcaps_of(caps@),
                crate::registry::reg_wf(reg@),
                gcaps == if is_instance {
                    reg@.instance
                } else {
                    reg@.device
                },
                is_instance ==> self@.len() == reg@.instance.len() && other@.len()
                    == reg@.device.len(),
                !is_instance ==> self@.len() == reg@.device.len() && other@.len()
                    == reg@.instance.len(),
                c <= n,
                forall|b: int| 0 <= b < c ==> cap_ok(
                    #[trigger] gcaps[b],
                    self@[b],
                    if is_instance {
                        self@
                    } else {
                        other@
                    },
                    if is_instance {
                        other@
                    } else {
                        self@
                    },
                    api_version,
                ),
            decreases n - c,
        {
            let cap = &caps[c];
            proof {
                assert(gcaps[c as int] == cap@);
            }
            let m = cap.conjs.len();
            if self.flags[c] && m > 0 {
                let mut sat = false;
                let mut j: usize = 0;
                while j < m && !sat
                    invariant
                        m == cap.conjs@.len(),
                        gcaps == if is_instance {
                            reg@.instance
                        } else {
                            reg@.device
                        },
                        c < n,
                        n == caps@.len(),
                        gcaps == crate::registry::rcaps_of(caps@),
                        cap == caps@[c as int],
                        crate::registry::reg_wf(reg@),
                        is_instance ==> self@.len() == reg@.instance.len() && other@.len()
                            == reg@.device.len(),
                        !is_instance ==> self@.len() == reg@.device.len() && other@.len()
                            == reg@.instance.len(),
                        j <= m,
                        sat ==> exists|x: int| 0 <= x < m && conj_sat(
                            #[trigger] cap@.conjs[x],
                            if is_instance {
                                self@
                            } else {
                                other@
                            },
                            if is_instance {
                                other@
                            } else {
                                self@
                            },
                            api_version,
                        ),
                        !sat ==> forall|x: int| 0 <= x < j ==> !conj_sat(
                            #[trigger] cap@.conjs[x],
                            if is_instance {
                                self@
                            } else {
                                other@
                            },
                            if is_instance {
                                other@
                            } else {
                                self@
                            },
                            api_version,
                        ),
                    decreases m - j,
                {
                    proof {
                        assert(gcaps[c as int] == cap@);
                        assert(cap@.conjs[j as int] == cap.conjs@[j as int]@);
                        assert(crate::registry::conj_wf(cap@.conjs[j as int], reg@));
                    }
                    let hit = if is_instance {
                        conj_sat_exec(&cap.conjs[j], self, other, &api_version)
                    } else {
                        conj_sat_exec(&cap.conjs[j], other, self, &api_version)
                    };
                    if hit {
                        sat = true;
                    }
                    j += 1;
                }
                if !sat {
                    let mut context = String::new();
                    context.append("desc.enabled_extensions.");
                    let rn = cap.rust_name();
                    context.append(rn.as_str());
                    let problem = String::new().concat(
                        "Extension is enabled, but requirements aren't met.",
                    );
                    let mut vuids: Vec<String> = Vec::new();
                    if is_instance {
                        vuids.push(
                            String::new().concat(
                                "VUID-vkCreateInstance-ppEnabledExtensionNames-01388",
                            ),
                        );
                    } else {
                        vuids.push(
                            String::new().concat(
                                "VUID-vkCreateDevice-ppEnabledExtensionNames-01387",
                            ),
                        );
                    }
                    proof {
                        assert forall|x: int| 0 <= x < cap@.conjs.len() implies
                            crate::registry::ref_bounds(
                            #[trigger] cap@.conjs[x],
                            reg@.instance.len() as int,
                            reg@.device.len() as int,
                        ) by {
                            assert(crate::registry::conj_wf(cap@.conjs[x], reg@));
                        }
                    }
                    let requires_one_of = build_requires(cap, reg);
                    let e = ValidationError { context, problem, vuids, requires_one_of };
                    proof {
                        assert(e.context@ == "desc.enabled_extensions."@ + spec_rust_name(
                            cap@.name,
                        ));
                        assert(!cap_ok(
                            gcaps[c as int],
                            self@[c as int],
                            if is_instance {
                                self@
                            } else {
                                other@
                            },
                            if is_instance {
                                other@
                            } else {
                                self@
                            },
                            api_version,
                        ));
                        assert(failure_matches(e, gcaps[c as int], reg@, is_instance));
                        let iflags = if is_instance {
                            self@
                        } else {
                            other@
                        };
                        let dflags = if is_instance {
                            other@
                        } else {
                            self@
                        };
                        let cc = c as int;
                        assert(!all_caps_ok(gcaps, self@, iflags, dflags, api_version)) by {
                            if all_caps_ok(gcaps, self@, iflags, dflags, api_version) {
                                assert(cap_ok(gcaps[cc], self@[cc], iflags, dflags, api_version));
                            }
                        };
                        assert(offender_reported(
                            gcaps,
                            self@,
                            iflags,
                            dflags,
                            api_version,
                            e,
                            reg@,
                            is_instance,
                        )) by {
                            assert(0 <= cc < gcaps.len());
                            assert(!cap_ok(gcaps[cc], self@[cc], iflags, dflags, api_version));
                            assert(forall|b: int| 0 <= b < cc ==> cap_ok(
                                #[trigger] gcaps[b],
                                self@[b],
                                iflags,
                                dflags,
                                api_version,
                            ));
                            assert(failure_matches(e, gcaps[cc], reg@, is_instance));
                        };
                    }
                    return Err(e);
                }
            }
            proof {
                assert(cap_ok(
                    gcaps[c as int],
                    self@[c as int],
                    if is_instance {
                        self@
                    } else {
                        other@
                    },
                    if is_instance {
                        other@
                    } else {
                        self@
                    },
                    api_version,
                ));
            }
            c += 1;
        }
        proof {
            let iflags = if is_instance {
                self@
            } else {
                other@
            };
            let dflags = if is_instance {
                other@
            } else {
                self@
            };
            assert(all_caps_ok(gcaps, self@, iflags, dflags, api_version));
        }
        Ok(())
    }
}

} // verus!
