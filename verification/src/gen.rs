//! The capability-set source generator: for one scope, the text of a set
//! type with one boolean field per capability, its constructors, its set
//! algebra, and a validator compiled from the requirement trees.
//!
//! Every piece of the output is a function of the resolved registry alone,
//! so regeneration over an equal registry yields byte-identical text.

use vstd::prelude::*;

use crate::registry::{rcaps_of, GRCap, GRConj, GReg, RCap, RConj, Registry};
use crate::text::{spec_decimal, spec_rust_name};

verus! {

/// The scope's capability list.
pub open spec fn scope_caps(g: GReg, inst: bool) -> Seq<GRCap> {
    if inst {
        g.instance
    } else {
        g.device
    }
}

/// The name of the capability that `r` references on the given side.
pub open spec fn ref_name(g: GReg, side_inst: bool, r: int) -> Seq<char> {
    if side_inst {
        g.instance[r].name
    } else {
        g.device[r].name
    }
}

/// The opening of the generated struct, per scope.
pub open spec fn header_text(inst: bool) -> Seq<char> {
    if inst {
        "/// Extensions for an [`Instance`].\n#[derive(Clone, Debug, Default, PartialEq, Eq)]\npub struct InstanceExtensions {\n"@
    } else {
        "/// Extensions for a [`Device`].\n#[derive(Clone, Debug, Default, PartialEq, Eq)]\npub struct DeviceExtensions {\n"@
    }
}

/// The close of the struct and the opening of its impl block, per scope.
pub open spec fn impl_open_text(inst: bool) -> Seq<char> {
    if inst {
        "}\n\nimpl InstanceExtensions {\n"@
    } else {
        "}\n\nimpl DeviceExtensions {\n"@
    }
}

/// One requirement reference in a field's doc comment.
pub open spec fn doc_ref_text(name: Seq<char>, side_inst: bool) -> Seq<char> {
    if side_inst {
        "    ///   - [`"@ + name + "`](crate::InstanceExtensions::"@ + spec_rust_name(name)
            + ")\n"@
    } else {
        "    ///   - [`"@ + name + "`](crate::DeviceExtensions::"@ + spec_rust_name(name)
            + ")\n"@
    }
}

/// The doc-comment lines of one side's references of an alternative.
pub open spec fn doc_ref_lines(refs: Seq<int>, g: GReg, side_inst: bool) -> Seq<char>
    decreases refs.len(),
{
    if refs.len() == 0 {
        Seq::empty()
    } else {
        doc_ref_lines(refs.drop_last(), g, side_inst) + doc_ref_text(
            ref_name(g, side_inst, refs.last()),
            side_inst,
        )
    }
}

/// One alternative in a field's doc comment: its version floor, then its
/// references, global scope first.
pub open spec fn doc_conj_text(c: GRConj, g: GReg) -> Seq<char> {
    (match c.api_version {
        Some(n) => "    /// - [`API version "@ + spec_decimal(n as int) + "`](crate::Version)"@
            + if c.instance_refs.len() + c.device_refs.len() > 0 {
            " and all of the following extensions:\n"@
        } else {
            ".\n"@
        },
        None => "    /// - All of the following extensions:\n"@,
    }) + doc_ref_lines(c.instance_refs, g, true) + doc_ref_lines(c.device_refs, g, false)
}

/// The doc-comment lines of a capability's alternatives.
pub open spec fn doc_conj_lines(conjs: Seq<GRConj>, g: GReg) -> Seq<char>
    decreases conjs.len(),
{
    if conjs.len() == 0 {
        Seq::empty()
    } else {
        doc_conj_lines(conjs.drop_last(), g) + doc_conj_text(conjs.last(), g)
    }
}

/// One field of the struct: its doc comment, then the boolean field itself.
pub open spec fn field_text(cap: GRCap, g: GReg) -> Seq<char> {
    "    /// Enable the [`"@ + cap.name + "`]() extension.\n"@ + (if cap.conjs.len() > 0 {
        "    ///\n    /// Requires any of the following:\n"@ + doc_conj_lines(cap.conjs, g)
    } else {
        Seq::empty()
    }) + "    pub "@ + spec_rust_name(cap.name) + ": bool,\n"@
}

/// The fields of the struct, one per capability of the scope.
pub open spec fn field_lines(caps: Seq<GRCap>, g: GReg) -> Seq<char>
    decreases caps.len(),
{
    if caps.len() == 0 {
        Seq::empty()
    } else {
        field_lines(caps.drop_last(), g) + field_text(caps.last(), g)
    }
}

/// One match arm of `from_names`.
pub open spec fn from_names_arm_text(cap: GRCap) -> Seq<char> {
    "                \""@ + cap.name + "\" => {\n                    extensions."@
        + spec_rust_name(cap.name) + " = true;\n                },\n"@
}

/// The match arms of `from_names`.
pub open spec fn from_names_arms(caps: Seq<GRCap>) -> Seq<char>
    decreases caps.len(),
{
    if caps.len() == 0 {
        Seq::empty()
    } else {
        from_names_arms(caps.drop_last()) + from_names_arm_text(caps.last())
    }
}

/// The `from_names` constructor: each known name sets its field, unknown
/// names fall through to the arm that ignores them.
pub open spec fn from_names_text(caps: Seq<GRCap>) -> Seq<char> {
    "    pub(crate) fn from_names<'a>(names: impl Iterator<Item = &'a str>) -> Self {\n        let mut extensions = Self::default();\n\n        for name in names {\n            match name {\n"@
        + from_names_arms(caps)
        + "                _ => {}\n            }\n        }\n\n        extensions\n    }\n"@
}

/// One conditional push of `extension_names`.
pub open spec fn extension_names_arm_text(cap: GRCap) -> Seq<char> {
    "        if self."@ + spec_rust_name(cap.name) + " {\n            names.push(c\""@ + cap.name
        + "\".as_ptr());\n        }\n"@
}

/// The conditional pushes of `extension_names`.
pub open spec fn extension_names_arms(caps: Seq<GRCap>) -> Seq<char>
    decreases caps.len(),
{
    if caps.len() == 0 {
        Seq::empty()
    } else {
        extension_names_arms(caps.drop_last()) + extension_names_arm_text(caps.last())
    }
}

/// The `extension_names` accessor.
pub open spec fn extension_names_text(caps: Seq<GRCap>) -> Seq<char> {
    "    fn extension_names(&self) -> Vec<*const ffi::c_char> {\n        let mut names = Vec::new();\n\n"@
        + extension_names_arms(caps) + "\n        names\n    }\n"@
}

/// One disabled-reference test inside the validator's guard. Cross-scope
/// references of a per-device capability read the caller-supplied instance
/// set; everything else reads `self`.
pub open spec fn guard_ref_text(name: Seq<char>, side_inst: bool, inst: bool) -> Seq<char> {
    if side_inst && !inst {
        " || !instance_extensions."@ + spec_rust_name(name)
    } else {
        " || !self."@ + spec_rust_name(name)
    }
}

/// The disabled-reference tests of one side of an alternative.
pub open spec fn guard_ref_parts(refs: Seq<int>, g: GReg, side_inst: bool, inst: bool) -> Seq<
    char,
>
    decreases refs.len(),
{
    if refs.len() == 0 {
        Seq::empty()
    } else {
        guard_ref_parts(refs.drop_last(), g, side_inst, inst) + guard_ref_text(
            ref_name(g, side_inst, refs.last()),
            side_inst,
            inst,
        )
    }
}

/// The unsatisfied test of one alternative inside the validator's guard:
/// true when the version floor is missed or some referenced capability is
/// disabled.
pub open spec fn guard_conj_text(c: GRConj, g: GReg, inst: bool) -> Seq<char> {
    " && ("@ + (match c.api_version {
        Some(n) => "api_version < Version::V1_"@ + spec_decimal(n as int),
        None => "false"@,
    }) + guard_ref_parts(c.instance_refs, g, true, inst) + guard_ref_parts(
        c.device_refs,
        g,
        false,
        inst,
    ) + ")"@
}

/// The unsatisfied tests of all alternatives of one capability.
pub open spec fn guard_conj_parts(conjs: Seq<GRConj>, g: GReg, inst: bool) -> Seq<char>
    decreases conjs.len(),
{
    if conjs.len() == 0 {
        Seq::empty()
    } else {
        guard_conj_parts(conjs.drop_last(), g, inst) + guard_conj_text(conjs.last(), g, inst)
    }
}

/// One quoted reference name inside a `Requires` record.
pub open spec fn requires_name_text(name: Seq<char>) -> Seq<char> {
    "                            \""@ + name + "\",\n"@
}

/// The quoted reference names of one side of an alternative.
pub open spec fn requires_name_lines(refs: Seq<int>, g: GReg, side_inst: bool) -> Seq<char>
    decreases refs.len(),
{
    if refs.len() == 0 {
        Seq::empty()
    } else {
        requires_name_lines(refs.drop_last(), g, side_inst) + requires_name_text(
            ref_name(g, side_inst, refs.last()),
        )
    }
}

/// One `Requires` record in the validator's error value: the alternative's
/// version floor and its referenced names split by scope.
pub open spec fn requires_conj_text(c: GRConj, g: GReg) -> Seq<char> {
    "                    Requires {\n"@ + (match c.api_version {
        Some(n) => "                        api_version: Some(Version::V1_"@ + spec_decimal(
            n as int,
        ) + "),\n"@,
        None => "                        api_version: None,\n"@,
    }) + "                        instance_extensions: &[\n"@ + requires_name_lines(
        c.instance_refs,
        g,
        true,
    ) + "                        ],\n                        device_extensions: &[\n"@
        + requires_name_lines(c.device_refs, g, false)
        + "                        ],\n                    },\n"@
}

/// The `Requires` records of all alternatives of one capability.
pub open spec fn requires_conj_blocks(conjs: Seq<GRConj>, g: GReg) -> Seq<char>
    decreases conjs.len(),
{
    if conjs.len() == 0 {
        Seq::empty()
    } else {
        requires_conj_blocks(conjs.drop_last(), g) + requires_conj_text(conjs.last(), g)
    }
}

/// The validator's check of one capability: nothing for one without a
/// requirement; otherwise a guard that fires when the capability is enabled
/// but no alternative is satisfied, and the error it returns.
pub open spec fn validate_cap_text(cap: GRCap, g: GReg, inst: bool) -> Seq<char> {
    if cap.conjs.len() == 0 {
        Seq::empty()
    } else {
        "        if self."@ + spec_rust_name(cap.name) + guard_conj_parts(cap.conjs, g, inst)
            + " {\n            return Err(ValidationError {\n                context: \"desc.enabled_extensions."@
            + spec_rust_name(cap.name)
            + "\".into(),\n                problem: \"Extension is enabled, but requirements aren't met.\".into(),\n"@
            + (if inst {
            "                vuids: &[\"VUID-vkCreateInstance-ppEnabledExtensionNames-01388\"],\n"@
        } else {
            "                vuids: &[\"VUID-vkCreateDevice-ppEnabledExtensionNames-01387\"],\n"@
        }) + "                requires_one_of: &[\n"@ + requires_conj_blocks(cap.conjs, g)
            + "                ],\n            });\n        }\n"@
    }
}

/// The validator's checks, one per capability of the scope.
pub open spec fn validate_cap_lines(caps: Seq<GRCap>, g: GReg, inst: bool) -> Seq<char>
    decreases caps.len(),
{
    if caps.len() == 0 {
        Seq::empty()
    } else {
        validate_cap_lines(caps.drop_last(), g, inst) + validate_cap_text(caps.last(), g, inst)
    }
}

/// The validator: per-device sets are checked against a caller-supplied
/// instance set as well; instance sets against the version alone.
pub open spec fn validate_text(caps: Seq<GRCap>, g: GReg, inst: bool) -> Seq<char> {
    (if inst {
        "    fn validate(\n        &self,\n        api_version: Version,\n    ) -> Result<(), ValidationError> {\n"@
    } else {
        "    fn validate(\n        &self,\n        instance_extensions: &InstanceExtensions,\n        api_version: Version,\n    ) -> Result<(), ValidationError> {\n"@
    }) + validate_cap_lines(caps, g, inst) + "\n        Ok(())\n    }\n"@
}

/// One conjunct of `is_empty`.
pub open spec fn is_empty_arm_text(cap: GRCap) -> Seq<char> {
    " && !self."@ + spec_rust_name(cap.name) + "\n"@
}

/// The conjuncts of `is_empty`.
pub open spec fn is_empty_arms(caps: Seq<GRCap>) -> Seq<char>
    decreases caps.len(),
{
    if caps.len() == 0 {
        Seq::empty()
    } else {
        is_empty_arms(caps.drop_last()) + is_empty_arm_text(caps.last())
    }
}

/// The `is_empty` accessor.
pub open spec fn is_empty_text(caps: Seq<GRCap>) -> Seq<char> {
    "    /// Check if no extensions are enabled.\n    pub fn is_empty(&self) -> bool {\n        true\n"@
        + is_empty_arms(caps) + "    }\n\n"@
}

/// One field of the `union` result.
pub open spec fn union_arm_text(cap: GRCap) -> Seq<char> {
    "            "@ + spec_rust_name(cap.name) + ": self."@ + spec_rust_name(cap.name)
        + " || other."@ + spec_rust_name(cap.name) + ",\n"@
}

/// The fields of the `union` result.
pub open spec fn union_arms(caps: Seq<GRCap>) -> Seq<char>
    decreases caps.len(),
{
    if caps.len() == 0 {
        Seq::empty()
    } else {
        union_arms(caps.drop_last()) + union_arm_text(caps.last())
    }
}

/// The field-wise OR.
pub open spec fn union_text(caps: Seq<GRCap>) -> Seq<char> {
    "    /// Combine two sets of extensions into one.\n    pub fn union(&self, other: &Self) -> Self {\n        Self {\n"@
        + union_arms(caps) + "        }\n    }\n"@
}

/// One field of the `intersection` result.
pub open spec fn intersection_arm_text(cap: GRCap) -> Seq<char> {
    "            "@ + spec_rust_name(cap.name) + ": self."@ + spec_rust_name(cap.name)
        + " && other."@ + spec_rust_name(cap.name) + ",\n"@
}

/// The fields of the `intersection` result.
pub open spec fn intersection_arms(caps: Seq<GRCap>) -> Seq<char>
    decreases caps.len(),
{
    if caps.len() == 0 {
        Seq::empty()
    } else {
        intersection_arms(caps.drop_last()) + intersection_arm_text(caps.last())
    }
}

/// The field-wise AND.
pub open spec fn intersection_text(caps: Seq<GRCap>) -> Seq<char> {
    "    /// Compute the intersection of two sets of extensions.\n    pub fn intersection(&self, other: &Self) -> Self {\n        Self {\n"@
        + intersection_arms(caps) + "        }\n    }\n"@
}

/// One conjunct of `contains`.
pub open spec fn contains_arm_text(cap: GRCap) -> Seq<char> {
    " && (!self."@ + spec_rust_name(cap.name) + " || other."@ + spec_rust_name(cap.name) + ")\n"@
}

/// The conjuncts of `contains`.
pub open spec fn contains_arms(caps: Seq<GRCap>) -> Seq<char>
    decreases caps.len(),
{
    if caps.len() == 0 {
        Seq::empty()
    } else {
        contains_arms(caps.drop_last()) + contains_arm_text(caps.last())
    }
}

/// The subset test.
pub open spec fn contains_text(caps: Seq<GRCap>) -> Seq<char> {
    "    /// Check if the extension is enabled.\n    pub fn contains(&self, other: &Self) -> bool {\n        true\n"@
        + contains_arms(caps) + "    }\n"@
}

/// One field of the `difference` result.
pub open spec fn difference_arm_text(cap: GRCap) -> Seq<char> {
    "            "@ + spec_rust_name(cap.name) + ": self."@ + spec_rust_name(cap.name)
        + " && !other."@ + spec_rust_name(cap.name) + ",\n"@
}

/// The fields of the `difference` result.
pub open spec fn difference_arms(caps: Seq<GRCap>) -> Seq<char>
    decreases caps.len(),
{
    if caps.len() == 0 {
        Seq::empty()
    } else {
        difference_arms(caps.drop_last()) + difference_arm_text(caps.last())
    }
}

/// The field-wise AND-NOT.
pub open spec fn difference_text(caps: Seq<GRCap>) -> Seq<char> {
    "    /// Compute the difference of two sets of extensions.\n    pub fn difference(&self, other: &Self) -> Self {\n        Self {\n"@
        + difference_arms(caps) + "        }\n    }\n"@
}

/// Append the disabled-reference tests of one side of an alternative.
fn emit_guard_refs(out: &mut String, refs: &Vec<usize>, reg: &Registry, side_inst: bool, inst:
    bool)
    requires
        side_inst ==> forall|k: int| 0 <= k < refs@.len() ==> #[trigger] refs@[k]
            < reg@.instance.len(),
        !side_inst ==> forall|k: int| 0 <= k < refs@.len() ==> #[trigger] refs@[k]
            < reg@.device.len(),
    ensures
        final(out)@ == old(out)@ + guard_ref_parts(
            Seq::new(refs@.len(), |k: int| refs@[k] as int),
            reg@,
            side_inst,
            inst,
        ),
{
    let ghost grefs = Seq::new(refs@.len(), |k: int| refs@[k] as int);
    let ghost pre = old(out)@;
    let n = refs.len();
    let mut k: usize = 0;
    proof {
        assert(grefs.take(0).len() == 0);
        assert(out@ =~= pre + guard_ref_parts(grefs.take(0), reg@, side_inst, inst));
    }
    while k < n
        invariant
            n == refs@.len(),
            grefs == Seq::new(refs@.len(), |x: int| refs@[x] as int),
            side_inst ==> forall|x: int| 0 <= x < refs@.len() ==> #[trigger] refs@[x]
                < reg@.instance.len(),
            !side_inst ==> forall|x: int| 0 <= x < refs@.len() ==> #[trigger] refs@[x]
                < reg@.device.len(),
            k <= n,
            out@ == pre + guard_ref_parts(grefs.take(k as int), reg@, side_inst, inst),
        decreases n - k,
    {
        let target = if side_inst {
            &reg.instance_caps[refs[k]]
        } else {
            &reg.device_caps[refs[k]]
        };
        proof {
            assert(target@.name == ref_name(reg@, side_inst, grefs[k as int]));
        }
        if side_inst && !inst {
            out.append(" || !instance_extensions.");
        } else {
            out.append(" || !self.");
        }
        let rn = target.rust_name();
        out.append(rn.as_str());
        proof {
            assert(grefs.take(k + 1).drop_last() =~= grefs.take(k as int));
            assert(grefs.take(k + 1).last() == grefs[k as int]);
            assert(out@ =~= pre + guard_ref_parts(grefs.take(k + 1), reg@, side_inst, inst));
        }
        k += 1;
    }
    proof {
        assert(grefs.take(n as int) =~= grefs);
    }
}

/// Append the unsatisfied tests of a capability's alternatives to `out`.
fn emit_guard_conjs(out: &mut String, conjs: &Vec<RConj>, reg: &Registry, inst: bool)
    requires
        forall|j: int| 0 <= j < conjs@.len() ==> crate::registry::ref_bounds(
            #[trigger] conjs@[j]@,
            reg@.instance.len() as int,
            reg@.device.len() as int,
        ),
    ensures
        final(out)@ == old(out)@ + guard_conj_parts(
            crate::registry::rconjs_of(conjs@),
            reg@,
            inst,
        ),
{
    let ghost gconjs = crate::registry::rconjs_of(conjs@);
    let ghost pre = old(out)@;
    let m = conjs.len();
    let mut j: usize = 0;
    proof {
        assert(gconjs.take(0).len() == 0);
        assert(out@ =~= pre + guard_conj_parts(gconjs.take(0), reg@, inst));
    }
    while j < m
        invariant
            m == conjs@.len(),
            gconjs == crate::registry::rconjs_of(conjs@),
            forall|x: int| 0 <= x < conjs@.len() ==> crate::registry::ref_bounds(
                #[trigger] conjs@[x]@,
                reg@.instance.len() as int,
                reg@.device.len() as int,
            ),
            j <= m,
            out@ == pre + guard_conj_parts(gconjs.take(j as int), reg@, inst),
        decreases m - j,
    {
        let conj = &conjs[j];
        let ghost mid = out@;
        proof {
            assert(gconjs[j as int] == conj@);
        }
        out.append(" && (");
        match conj.api_version {
            Some(n) => {
                out.append("api_version < Version::V1_");
                let d = crate::text::u32_to_decimal(n);
                out.append(d.as_str());
            },
            None => {
                out.append("false");
            },
        }
        proof {
            assert(crate::registry::ref_bounds(
                conj@,
                reg@.instance.len() as int,
                reg@.device.len() as int,
            ));
            assert forall|k: int| 0 <= k < conj.instance_refs@.len() implies
                #[trigger] conj.instance_refs@[k] < reg@.instance.len() by {
                assert(conj@.instance_refs[k] == conj.instance_refs@[k] as int);
            }
            assert forall|k: int| 0 <= k < conj.device_refs@.len() implies
                #[trigger] conj.device_refs@[k] < reg@.device.len() by {
                assert(conj@.device_refs[k] == conj.device_refs@[k] as int);
            }
        }
        emit_guard_refs(out, &conj.instance_refs, reg, true, inst);
        emit_guard_refs(out, &conj.device_refs, reg, false, inst);
        out.append(")");
        proof {
            assert(gconjs.take(j + 1).drop_last() =~= gconjs.take(j as int));
            assert(gconjs.take(j + 1).last() == gconjs[j as int]);
            assert(out@ =~= mid + guard_conj_text(conj@, reg@, inst));
            assert(out@ =~= pre + guard_conj_parts(gconjs.take(j + 1), reg@, inst));
        }
        j += 1;
    }
    proof {
        assert(gconjs.take(m as int) =~= gconjs);
    }
}

/// Append the quoted reference names of one side of an alternative.
fn emit_requires_names(out: &mut String, refs: &Vec<usize>, reg: &Registry, side_inst: bool)
    requires
        side_inst ==> forall|k: int| 0 <= k < refs@.len() ==> #[trigger] refs@[k]
            < reg@.instance.len(),
        !side_inst ==> forall|k: int| 0 <= k < refs@.len() ==> #[trigger] refs@[k]
            < reg@.device.len(),
    ensures
        final(out)@ == old(out)@ + requires_name_lines(
            Seq::new(refs@.len(), |k: int| refs@[k] as int),
            reg@,
            side_inst,
        ),
{
    let ghost grefs = Seq::new(refs@.len(), |k: int| refs@[k] as int);
    let ghost pre = old(out)@;
    let n = refs.len();
    let mut k: usize = 0;
    proof {
        assert(grefs.take(0).len() == 0);
        assert(out@ =~= pre + requires_name_lines(grefs.take(0), reg@, side_inst));
    }
    while k < n
        invariant
            n == refs@.len(),
            grefs == Seq::new(refs@.len(), |x: int| refs@[x] as int),
            side_inst ==> forall|x: int| 0 <= x < refs@.len() ==> #[trigger] refs@[x]
                < reg@.instance.len(),
            !side_inst ==> forall|x: int| 0 <= x < refs@.len() ==> #[trigger] refs@[x]
                < reg@.device.len(),
            k <= n,
            out@ == pre + requires_name_lines(grefs.take(k as int), reg@, side_inst),
        decreases n - k,
    {
        let target = if side_inst {
            &reg.instance_caps[refs[k]]
        } else {
            &reg.device_caps[refs[k]]
        };
        proof {
            assert(target@.name == ref_name(reg@, side_inst, grefs[k as int]));
        }
        out.append("                            \"");
        out.append(target.name.as_str());
        out.append("\",\n");
        proof {
            assert(grefs.take(k + 1).drop_last() =~= grefs.take(k as int));
            assert(grefs.take(k + 1).last() == grefs[k as int]);
            assert(out@ =~= pre + requires_name_lines(grefs.take(k + 1), reg@, side_inst));
        }
        k += 1;
    }
    proof {
        assert(grefs.take(n as int) =~= grefs);
    }
}

/// Append the `Requires` records of a capability's alternatives to `out`.
fn emit_requires_conjs(out: &mut String, conjs: &Vec<RConj>, reg: &Registry)
    requires
        forall|j: int| 0 <= j < conjs@.len() ==> crate::registry::ref_bounds(
            #[trigger] conjs@[j]@,
            reg@.instance.len() as int,
            reg@.device.len() as int,
        ),
    ensures
        final(out)@ == old(out)@ + requires_conj_blocks(
            crate::registry::rconjs_of(conjs@),
            reg@,
        ),
{
    let ghost gconjs = crate::registry::rconjs_of(conjs@);
    let ghost pre = old(out)@;
    let m = conjs.len();
    let mut j: usize = 0;
    proof {
        assert(gconjs.take(0).len() == 0);
        assert(out@ =~= pre + requires_conj_blocks(gconjs.take(0), reg@));
    }
    while j < m
        invariant
            m == conjs@.len(),
            gconjs == crate::registry::rconjs_of(conjs@),
            forall|x: int| 0 <= x < conjs@.len() ==> crate::registry::ref_bounds(
                #[trigger] conjs@[x]@,
                reg@.instance.len() as int,
                reg@.device.len() as int,
            ),
            j <= m,
            out@ == pre + requires_conj_blocks(gconjs.take(j as int), reg@),
        decreases m - j,
    {
        let conj = &conjs[j];
        let ghost mid = out@;
        proof {
            assert(gconjs[j as int] == conj@);
        }
        out.append("                    Requires {\n");
        match conj.api_version {
            Some(n) => {
                out.append("                        api_version: Some(Version::V1_");
                let d = crate::text::u32_to_decimal(n);
                out.append(d.as_str());
                out.append("),\n");
            },
            None => {
                out.append("                        api_version: None,\n");
            },
        }
        out.append("                        instance_extensions: &[\n");
        proof {
            assert(crate::registry::ref_bounds(
                conj@,
                reg@.instance.len() as int,
                reg@.device.len() as int,
            ));
            assert forall|k: int| 0 <= k < conj.instance_refs@.len() implies
                #[trigger] conj.instance_refs@[k] < reg@.instance.len() by {
                assert(conj@.instance_refs[k] == conj.instance_refs@[k] as int);
            }
            assert forall|k: int| 0 <= k < conj.device_refs@.len() implies
                #[trigger] conj.device_refs@[k] < reg@.device.len() by {
                assert(conj@.device_refs[k] == conj.device_refs@[k] as int);
            }
        }
        emit_requires_names(out, &conj.instance_refs, reg, true);
        out.append("                        ],\n                        device_extensions: &[\n");
        emit_requires_names(out, &conj.device_refs, reg, false);
        out.append("                        ],\n                    },\n");
        proof {
            assert(gconjs.take(j + 1).drop_last() =~= gconjs.take(j as int));
            assert(gconjs.take(j + 1).last() == gconjs[j as int]);
            assert(out@ =~= mid + requires_conj_text(conj@, reg@));
            assert(out@ =~= pre + requires_conj_blocks(gconjs.take(j + 1), reg@));
        }
        j += 1;
    }
    proof {
        assert(gconjs.take(m as int) =~= gconjs);
    }
}

/// Append the validator's check of one capability to `out`.
#[verifier::rlimit(60)]
fn emit_validate_cap(out: &mut String, cap: &RCap, reg: &Registry, inst: bool)
    requires
        forall|x: int| 0 <= x < cap@.conjs.len() ==> crate::registry::ref_bounds(
            #[trigger] cap@.conjs[x],
            reg@.instance.len() as int,
            reg@.device.len() as int,
        ),
    ensures
        final(out)@ == old(out)@ + validate_cap_text(cap@, reg@, inst),
{
    let ghost mid = old(out)@;
    if cap.conjs.len() > 0 {
        proof {
            assert forall|x: int| 0 <= x < cap.conjs@.len() implies
                crate::registry::ref_bounds(
                #[trigger] cap.conjs@[x]@,
                reg@.instance.len() as int,
                reg@.device.len() as int,
            ) by {
                assert(cap@.conjs[x] == cap.conjs@[x]@);
            }
        }
        out.append("        if self.");
        let rn = cap.rust_name();
        out.append(rn.as_str());
        emit_guard_conjs(out, &cap.conjs, reg, inst);
        out.append(
            " {\n            return Err(ValidationError {\n                context: \"desc.enabled_extensions.",
        );
        out.append(rn.as_str());
        out.append(
            "\".into(),\n                problem: \"Extension is enabled, but requirements aren't met.\".into(),\n",
        );
        if inst {
            out.append(
                "                vuids: &[\"VUID-vkCreateInstance-ppEnabledExtensionNames-01388\"],\n",
            );
        } else {
            out.append(
                "                vuids: &[\"VUID-vkCreateDevice-ppEnabledExtensionNames-01387\"],\n",
            );
        }
        out.append("                requires_one_of: &[\n");
        emit_requires_conjs(out, &cap.conjs, reg);
        out.append("                ],\n            });\n        }\n");
        proof {
            assert(out@ =~= mid + validate_cap_text(cap@, reg@, inst));
        }
    }
}

/// Append the validator to `out`.
fn emit_validate(out: &mut String, caps: &Vec<RCap>, reg: &Registry, inst: bool)
    requires
        caps_refs_bounded(caps@, reg@),
    ensures
        final(out)@ == old(out)@ + validate_text(rcaps_of(caps@), reg@, inst),
{
    let ghost base = old(out)@;
    let ghost gcaps = rcaps_of(caps@);
    if inst {
        out.append(
            "    fn validate(\n        &self,\n        api_version: Version,\n    ) -> Result<(), ValidationError> {\n",
        );
    } else {
        out.append(
            "    fn validate(\n        &self,\n        instance_extensions: &InstanceExtensions,\n        api_version: Version,\n    ) -> Result<(), ValidationError> {\n",
        );
    }
    let ghost pre = out@;
    let n = caps.len();
    let mut i: usize = 0;
    proof {
        assert(gcaps.take(0).len() == 0);
        assert(out@ =~= pre + validate_cap_lines(gcaps.take(0), reg@, inst));
    }
    while i < n
        invariant
            n == caps@.len(),
            gcaps == rcaps_of(caps@),
            caps_refs_bounded(caps@, reg@),
            i <= n,
            out@ == pre + validate_cap_lines(gcaps.take(i as int), reg@, inst),
        decreases n - i,
    {
        let cap = &caps[i];
        let ghost mid = out@;
        proof {
            assert(gcaps[i as int] == cap@);
            assert forall|x: int| 0 <= x < cap@.conjs.len() implies
                crate::registry::ref_bounds(
                #[trigger] cap@.conjs[x],
                reg@.instance.len() as int,
                reg@.device.len() as int,
            ) by {
                assert(caps@[i as int]@.conjs[x] == cap@.conjs[x]);
            }
        }
        emit_validate_cap(out, cap, reg, inst);
        proof {
            assert(gcaps.take(i + 1).drop_last() =~= gcaps.take(i as int));
            assert(gcaps.take(i + 1).last() == gcaps[i as int]);
            assert(out@ =~= pre + validate_cap_lines(gcaps.take(i + 1), reg@, inst));
        }
        i += 1;
    }
    proof {
        assert(gcaps.take(n as int) =~= gcaps);
        assert(base + validate_text(gcaps, reg@, inst) =~= pre + validate_cap_lines(
            gcaps,
            reg@,
            inst,
        ) + "\n        Ok(())\n    }\n"@);
    }
    out.append("\n        Ok(())\n    }\n");
}

/// Append the `is_empty` accessor to `out`.
fn emit_is_empty(out: &mut String, caps: &Vec<RCap>)
    ensures
        final(out)@ == old(out)@ + is_empty_text(rcaps_of(caps@)),
{
    let ghost base = old(out)@;
    let ghost gcaps = rcaps_of(caps@);
    out.append(
        "    /// Check if no extensions are enabled.\n    pub fn is_empty(&self) -> bool {\n        true\n",
    );
    let ghost pre = out@;
    let n = caps.len();
    let mut i: usize = 0;
    proof {
        assert(gcaps.take(0).len() == 0);
        assert(out@ =~= pre + is_empty_arms(gcaps.take(0)));
    }
    while i < n
        invariant
            n == caps@.len(),
            gcaps == rcaps_of(caps@),
            i <= n,
            out@ == pre + is_empty_arms(gcaps.take(i as int)),
        decreases n - i,
    {
        let ghost before = out@;
        out.append(" && !self.");
        let rn = caps[i].rust_name();
        out.append(rn.as_str());
        out.append("\n");
        proof {
            assert(gcaps.take(i + 1).drop_last() =~= gcaps.take(i as int));
            assert(gcaps.take(i + 1).last() == gcaps[i as int]);
            assert(gcaps[i as int] == caps@[i as int]@);
            assert(out@ =~= pre + is_empty_arms(gcaps.take(i + 1)));
        }
        i += 1;
    }
    proof {
        assert(gcaps.take(n as int) =~= gcaps);
        assert(base + is_empty_text(gcaps) =~= pre + is_empty_arms(gcaps) + "    }\n\n"@);
    }
    out.append("    }\n\n");
}

/// Whether every alternative of every capability of `caps` keeps its
/// references inside the registry's lists.
pub open spec fn caps_refs_bounded(caps: Seq<RCap>, g: GReg) -> bool {
    forall|c: int, j: int| 0 <= c < caps.len() && 0 <= j < caps[c]@.conjs.len()
        ==> crate::registry::ref_bounds(
        #[trigger] caps[c]@.conjs[j],
        g.instance.len() as int,
        g.device.len() as int,
    )
}

/// Append the doc-comment lines of one side's references to `out`.
fn emit_doc_refs(out: &mut String, refs: &Vec<usize>, reg: &Registry, side_inst: bool)
    requires
        side_inst ==> forall|k: int| 0 <= k < refs@.len() ==> #[trigger] refs@[k]
            < reg@.instance.len(),
        !side_inst ==> forall|k: int| 0 <= k < refs@.len() ==> #[trigger] refs@[k]
            < reg@.device.len(),
    ensures
        final(out)@ == old(out)@ + doc_ref_lines(
            Seq::new(refs@.len(), |k: int| refs@[k] as int),
            reg@,
            side_inst,
        ),
{
    let ghost grefs = Seq::new(refs@.len(), |k: int| refs@[k] as int);
    let ghost pre = old(out)@;
    let n = refs.len();
    let mut k: usize = 0;
    proof {
        assert(grefs.take(0).len() == 0);
        assert(out@ =~= pre + doc_ref_lines(grefs.take(0), reg@, side_inst));
    }
    while k < n
        invariant
            n == refs@.len(),
            grefs == Seq::new(refs@.len(), |x: int| refs@[x] as int),
            side_inst ==> forall|x: int| 0 <= x < refs@.len() ==> #[trigger] refs@[x]
                < reg@.instance.len(),
            !side_inst ==> forall|x: int| 0 <= x < refs@.len() ==> #[trigger] refs@[x]
                < reg@.device.len(),
            k <= n,
            out@ == pre + doc_ref_lines(grefs.take(k as int), reg@, side_inst),
        decreases n - k,
    {
        let target = if side_inst {
            &reg.instance_caps[refs[k]]
        } else {
            &reg.device_caps[refs[k]]
        };
        proof {
            assert(target@.name == ref_name(reg@, side_inst, grefs[k as int]));
        }
        out.append("    ///   - [`");
        out.append(target.name.as_str());
        if side_inst {
            out.append("`](crate::InstanceExtensions::");
        } else {
            out.append("`](crate::DeviceExtensions::");
        }
        let rn = target.rust_name();
        out.append(rn.as_str());
        out.append(")\n");
        proof {
            assert(grefs.take(k + 1).drop_last() =~= grefs.take(k as int));
            assert(grefs.take(k + 1).last() == grefs[k as int]);
            assert(out@ =~= pre + doc_ref_lines(grefs.take(k + 1), reg@, side_inst));
        }
        k += 1;
    }
    proof {
        assert(grefs.take(n as int) =~= grefs);
    }
}

/// Append the doc-comment lines of a capability's alternatives to `out`.
fn emit_doc_conjs(out: &mut String, conjs: &Vec<RConj>, reg: &Registry)
    requires
        forall|j: int| 0 <= j < conjs@.len() ==> crate::registry::ref_bounds(
            #[trigger] conjs@[j]@,
            reg@.instance.len() as int,
            reg@.device.len() as int,
        ),
    ensures
        final(out)@ == old(out)@ + doc_conj_lines(
            crate::registry::rconjs_of(conjs@),
            reg@,
        ),
{
    let ghost gconjs = crate::registry::rconjs_of(conjs@);
    let ghost pre = old(out)@;
    let m = conjs.len();
    let mut j: usize = 0;
    proof {
        assert(gconjs.take(0).len() == 0);
        assert(out@ =~= pre + doc_conj_lines(gconjs.take(0), reg@));
    }
    while j < m
        invariant
            m == conjs@.len(),
            gconjs == crate::registry::rconjs_of(conjs@),
            forall|x: int| 0 <= x < conjs@.len() ==> crate::registry::ref_bounds(
                #[trigger] conjs@[x]@,
                reg@.instance.len() as int,
                reg@.device.len() as int,
            ),
            j <= m,
            out@ == pre + doc_conj_lines(gconjs.take(j as int), reg@),
        decreases m - j,
    {
        let conj = &conjs[j];
        let ghost mid = out@;
        proof {
            assert(gconjs[j as int] == conj@);
        }
        match conj.api_version {
            Some(n) => {
                out.append("    /// - [`API version ");
                let d = crate::text::u32_to_decimal(n);
                out.append(d.as_str());
                out.append("`](crate::Version)");
                if conj.instance_refs.len() > 0 || conj.device_refs.len() > 0 {
                    out.append(" and all of the following extensions:\n");
                } else {
                    out.append(".\n");
                }
            },
            None => {
                out.append("    /// - All of the following extensions:\n");
            },
        }
        proof {
            assert(crate::registry::ref_bounds(
                conj@,
                reg@.instance.len() as int,
                reg@.device.len() as int,
            ));
            assert forall|k: int| 0 <= k < conj.instance_refs@.len() implies
                #[trigger] conj.instance_refs@[k] < reg@.instance.len() by {
                assert(conj@.instance_refs[k] == conj.instance_refs@[k] as int);
            }
            assert forall|k: int| 0 <= k < conj.device_refs@.len() implies
                #[trigger] conj.device_refs@[k] < reg@.device.len() by {
                assert(conj@.device_refs[k] == conj.device_refs@[k] as int);
            }
        }
        emit_doc_refs(out, &conj.instance_refs, reg, true);
        emit_doc_refs(out, &conj.device_refs, reg, false);
        proof {
            assert(gconjs.take(j + 1).drop_last() =~= gconjs.take(j as int));
            assert(gconjs.take(j + 1).last() == gconjs[j as int]);
            assert(out@ =~= mid + doc_conj_text(conj@, reg@));
            assert(out@ =~= pre + doc_conj_lines(gconjs.take(j + 1), reg@));
        }
        j += 1;
    }
    proof {
        assert(gconjs.take(m as int) =~= gconjs);
    }
}

/// Append the struct fields, one per capability, to `out`.
fn emit_fields(out: &mut String, caps: &Vec<RCap>, reg: &Registry)
    requires
        caps_refs_bounded(caps@, reg@),
    ensures
        final(out)@ == old(out)@ + field_lines(rcaps_of(caps@), reg@),
{
    let ghost gcaps = rcaps_of(caps@);
    let ghost pre = old(out)@;
    let n = caps.len();
    let mut i: usize = 0;
    proof {
        assert(gcaps.take(0).len() == 0);
        assert(out@ =~= pre + field_lines(gcaps.take(0), reg@));
    }
    while i < n
        invariant
            n == caps@.len(),
            gcaps == rcaps_of(caps@),
            caps_refs_bounded(caps@, reg@),
            i <= n,
            out@ == pre + field_lines(gcaps.take(i as int), reg@),
        decreases n - i,
    {
        let cap = &caps[i];
        let ghost mid = out@;
        proof {
            assert(gcaps[i as int] == cap@);
        }
        out.append("    /// Enable the [`");
        out.append(cap.name.as_str());
        out.append("`]() extension.\n");
        if cap.conjs.len() > 0 {
            out.append("    ///\n    /// Requires any of the following:\n");
            proof {
                assert forall|x: int| 0 <= x < cap.conjs@.len() implies
                    crate::registry::ref_bounds(
                    #[trigger] cap.conjs@[x]@,
                    reg@.instance.len() as int,
                    reg@.device.len() as int,
                ) by {
                    assert(caps@[i as int]@.conjs[x] == cap.conjs@[x]@);
                }
            }
            emit_doc_conjs(out, &cap.conjs, reg);
        }
        out.append("    pub ");
        let rn = cap.rust_name();
        out.append(rn.as_str());
        out.append(": bool,\n");
        proof {
            assert(gcaps.take(i + 1).drop_last() =~= gcaps.take(i as int));
            assert(gcaps.take(i + 1).last() == gcaps[i as int]);
            assert(out@ =~= mid + field_text(cap@, reg@));
            assert(out@ =~= pre + field_lines(gcaps.take(i + 1), reg@));
        }
        i += 1;
    }
    proof {
        assert(gcaps.take(n as int) =~= gcaps);
    }
}

/// Append the match arms and frame of `from_names` to `out`.
fn emit_from_names(out: &mut String, caps: &Vec<RCap>)
    ensures
        final(out)@ == old(out)@ + from_names_text(rcaps_of(caps@)),
{
    let ghost base = old(out)@;
    let ghost gcaps = rcaps_of(caps@);
    out.append(
        "    pub(crate) fn from_names<'a>(names: impl Iterator<Item = &'a str>) -> Self {\n        let mut extensions = Self::default();\n\n        for name in names {\n            match name {\n",
    );
    let ghost pre = out@;
    let n = caps.len();
    let mut i: usize = 0;
    proof {
        assert(gcaps.take(0).len() == 0);
        assert(out@ =~= pre + from_names_arms(gcaps.take(0)));
    }
    while i < n
        invariant
            n == caps@.len(),
            gcaps == rcaps_of(caps@),
            i <= n,
            out@ == pre + from_names_arms(gcaps.take(i as int)),
        decreases n - i,
    {
        out.append("                \"");
        out.append(caps[i].name.as_str());
        out.append("\" => {\n                    extensions.");
        let rn = caps[i].rust_name();
        out.append(rn.as_str());
        out.append(" = true;\n                },\n");
        proof {
            assert(gcaps.take(i + 1).drop_last() =~= gcaps.take(i as int));
            assert(gcaps.take(i + 1).last() == gcaps[i as int]);
            assert(gcaps[i as int] == caps@[i as int]@);
            assert(out@ =~= pre + from_names_arms(gcaps.take(i + 1)));
        }
        i += 1;
    }
    proof {
        assert(gcaps.take(n as int) =~= gcaps);
        assert(base + from_names_text(gcaps) =~= pre + from_names_arms(gcaps)
            + "                _ => {}\n            }\n        }\n\n        extensions\n    }\n"@);
    }
    out.append("                _ => {}\n            }\n        }\n\n        extensions\n    }\n");
}

/// Append the `extension_names` accessor to `out`.
fn emit_extension_names(out: &mut String, caps: &Vec<RCap>)
    ensures
        final(out)@ == old(out)@ + extension_names_text(rcaps_of(caps@)),
{
    let ghost base = old(out)@;
    let ghost gcaps = rcaps_of(caps@);
    out.append(
        "    fn extension_names(&self) -> Vec<*const ffi::c_char> {\n        let mut names = Vec::new();\n\n",
    );
    let ghost pre = out@;
    let n = caps.len();
    let mut i: usize = 0;
    proof {
        assert(gcaps.take(0).len() == 0);
        assert(out@ =~= pre + extension_names_arms(gcaps.take(0)));
    }
    while i < n
        invariant
            n == caps@.len(),
            gcaps == rcaps_of(caps@),
            i <= n,
            out@ == pre + extension_names_arms(gcaps.take(i as int)),
        decreases n - i,
    {
        out.append("        if self.");
        let rn = caps[i].rust_name();
        out.append(rn.as_str());
        out.append(" {\n            names.push(c\"");
        out.append(caps[i].name.as_str());
        out.append("\".as_ptr());\n        }\n");
        proof {
            assert(gcaps.take(i + 1).drop_last() =~= gcaps.take(i as int));
            assert(gcaps.take(i + 1).last() == gcaps[i as int]);
            assert(gcaps[i as int] == caps@[i as int]@);
            assert(out@ =~= pre + extension_names_arms(gcaps.take(i + 1)));
        }
        i += 1;
    }
    proof {
        assert(gcaps.take(n as int) =~= gcaps);
        assert(base + extension_names_text(gcaps) =~= pre + extension_names_arms(gcaps)
            + "\n        names\n    }\n"@);
    }
    out.append("\n        names\n    }\n");
}

/// Append the `union` accessor to `out`.
fn emit_union(out: &mut String, caps: &Vec<RCap>)
    ensures
        final(out)@ == old(out)@ + union_text(rcaps_of(caps@)),
{
    let ghost base = old(out)@;
    let ghost gcaps = rcaps_of(caps@);
    out.append(
        "    /// Combine two sets of extensions into one.\n    pub fn union(&self, other: &Self) -> Self {\n        Self {\n",
    );
    let ghost pre = out@;
    let n = caps.len();
    let mut i: usize = 0;
    proof {
        assert(gcaps.take(0).len() == 0);
        assert(out@ =~= pre + union_arms(gcaps.take(0)));
    }
    while i < n
        invariant
            n == caps@.len(),
            gcaps == rcaps_of(caps@),
            i <= n,
            out@ == pre + union_arms(gcaps.take(i as int)),
        decreases n - i,
    {
        let rn = caps[i].rust_name();
        out.append("            ");
        out.append(rn.as_str());
        out.append(": self.");
        out.append(rn.as_str());
        out.append(" || other.");
        out.append(rn.as_str());
        out.append(",\n");
        proof {
            assert(gcaps.take(i + 1).drop_last() =~= gcaps.take(i as int));
            assert(gcaps.take(i + 1).last() == gcaps[i as int]);
            assert(gcaps[i as int] == caps@[i as int]@);
            assert(out@ =~= pre + union_arms(gcaps.take(i + 1)));
        }
        i += 1;
    }
    proof {
        assert(gcaps.take(n as int) =~= gcaps);
        assert(base + union_text(gcaps) =~= pre + union_arms(gcaps) + "        }\n    }\n"@);
    }
    out.append("        }\n    }\n");
}

/// Append the `intersection` accessor to `out`.
fn emit_intersection(out: &mut String, caps: &Vec<RCap>)
    ensures
        final(out)@ == old(out)@ + intersection_text(rcaps_of(caps@)),
{
    let ghost base = old(out)@;
    let ghost gcaps = rcaps_of(caps@);
    out.append(
        "    /// Compute the intersection of two sets of extensions.\n    pub fn intersection(&self, other: &Self) -> Self {\n        Self {\n",
    );
    let ghost pre = out@;
    let n = caps.len();
    let mut i: usize = 0;
    proof {
        assert(gcaps.take(0).len() == 0);
        assert(out@ =~= pre + intersection_arms(gcaps.take(0)));
    }
    while i < n
        invariant
            n == caps@.len(),
            gcaps == rcaps_of(caps@),
            i <= n,
            out@ == pre + intersection_arms(gcaps.take(i as int)),
        decreases n - i,
    {
        let rn = caps[i].rust_name();
        out.append("            ");
        out.append(rn.as_str());
        out.append(": self.");
        out.append(rn.as_str());
        out.append(" && other.");
        out.append(rn.as_str());
        out.append(",\n");
        proof {
            assert(gcaps.take(i + 1).drop_last() =~= gcaps.take(i as int));
            assert(gcaps.take(i + 1).last() == gcaps[i as int]);
            assert(gcaps[i as int] == caps@[i as int]@);
            assert(out@ =~= pre + intersection_arms(gcaps.take(i + 1)));
        }
        i += 1;
    }
    proof {
        assert(gcaps.take(n as int) =~= gcaps);
        assert(base + intersection_text(gcaps) =~= pre + intersection_arms(gcaps)
            + "        }\n    }\n"@);
    }
    out.append("        }\n    }\n");
}

/// Append the `contains` accessor to `out`.
fn emit_contains(out: &mut String, caps: &Vec<RCap>)
    ensures
        final(out)@ == old(out)@ + contains_text(rcaps_of(caps@)),
{
    let ghost base = old(out)@;
    let ghost gcaps = rcaps_of(caps@);
    out.append(
        "    /// Check if the extension is enabled.\n    pub fn contains(&self, other: &Self) -> bool {\n        true\n",
    );
    let ghost pre = out@;
    let n = caps.len();
    let mut i: usize = 0;
    proof {
        assert(gcaps.take(0).len() == 0);
        assert(out@ =~= pre + contains_arms(gcaps.take(0)));
    }
    while i < n
        invariant
            n == caps@.len(),
            gcaps == rcaps_of(caps@),
            i <= n,
            out@ == pre + contains_arms(gcaps.take(i as int)),
        decreases n - i,
    {
        let rn = caps[i].rust_name();
        out.append(" && (!self.");
        out.append(rn.as_str());
        out.append(" || other.");
        out.append(rn.as_str());
        out.append(")\n");
        proof {
            assert(gcaps.take(i + 1).drop_last() =~= gcaps.take(i as int));
            assert(gcaps.take(i + 1).last() == gcaps[i as int]);
            assert(gcaps[i as int] == caps@[i as int]@);
            assert(out@ =~= pre + contains_arms(gcaps.take(i + 1)));
        }
        i += 1;
    }
    proof {
        assert(gcaps.take(n as int) =~= gcaps);
        assert(base + contains_text(gcaps) =~= pre + contains_arms(gcaps) + "    }\n"@);
    }
    out.append("    }\n");
}

/// Append the `difference` accessor to `out`.
fn emit_difference(out: &mut String, caps: &Vec<RCap>)
    ensures
        final(out)@ == old(out)@ + difference_text(rcaps_of(caps@)),
{
    let ghost base = old(out)@;
    let ghost gcaps = rcaps_of(caps@);
    out.append(
        "    /// Compute the difference of two sets of extensions.\n    pub fn difference(&self, other: &Self) -> Self {\n        Self {\n",
    );
    let ghost pre = out@;
    let n = caps.len();
    let mut i: usize = 0;
    proof {
        assert(gcaps.take(0).len() == 0);
        assert(out@ =~= pre + difference_arms(gcaps.take(0)));
    }
    while i < n
        invariant
            n == caps@.len(),
            gcaps == rcaps_of(caps@),
            i <= n,
            out@ == pre + difference_arms(gcaps.take(i as int)),
        decreases n - i,
    {
        let rn = caps[i].rust_name();
        out.append("            ");
        out.append(rn.as_str());
        out.append(": self.");
        out.append(rn.as_str());
        out.append(" && !other.");
        out.append(rn.as_str());
        out.append(",\n");
        proof {
            assert(gcaps.take(i + 1).drop_last() =~= gcaps.take(i as int));
            assert(gcaps.take(i + 1).last() == gcaps[i as int]);
            assert(gcaps[i as int] == caps@[i as int]@);
            assert(out@ =~= pre + difference_arms(gcaps.take(i + 1)));
        }
        i += 1;
    }
    proof {
        assert(gcaps.take(n as int) =~= gcaps);
        assert(base + difference_text(gcaps) =~= pre + difference_arms(gcaps)
            + "        }\n    }\n"@);
    }
    out.append("        }\n    }\n");
}

/// The whole generated source of one scope's set type.
pub open spec fn spec_generate(g: GReg, inst: bool) -> Seq<char> {
    let caps = scope_caps(g, inst);
    header_text(inst) + field_lines(caps, g) + impl_open_text(inst) + from_names_text(caps)
        + extension_names_text(caps) + validate_text(caps, g, inst) + is_empty_text(caps)
        + union_text(caps) + intersection_text(caps) + contains_text(caps)
        + difference_text(caps) + "}\n"@
}

/// The generated source of one scope's capability-set type: the struct with
/// one boolean field per capability of the scope, its constructors, its set
/// algebra, and its validator, as one text.
#[verifier::rlimit(60)]
pub fn generate_extensions(reg: &Registry, is_instance: bool) -> (r: String)
    requires
        crate::registry::reg_wf(reg@),
    ensures
        r@ == spec_generate(reg@, is_instance),
{
    let caps = if is_instance {
        &reg.instance_caps
    } else {
        &reg.device_caps
    };
    proof {
        assert(rcaps_of(caps@) =~= scope_caps(reg@, is_instance));
        assert forall|c: int, j: int| 0 <= c < caps@.len() && 0 <= j
            < caps@[c]@.conjs.len() implies crate::registry::ref_bounds(
            #[trigger] caps@[c]@.conjs[j],
            reg@.instance.len() as int,
            reg@.device.len() as int,
        ) by {
            if is_instance {
                assert(reg@.instance[c].conjs[j] == caps@[c]@.conjs[j]);
                assert(crate::registry::conj_wf(reg@.instance[c].conjs[j], reg@));
            } else {
                assert(reg@.device[c].conjs[j] == caps@[c]@.conjs[j]);
                assert(crate::registry::conj_wf(reg@.device[c].conjs[j], reg@));
            }
        }
        assert(caps_refs_bounded(caps@, reg@));
    }
    let mut out = String::new();
    if is_instance {
        out.append(
            "/// Extensions for an [`Instance`].\n#[derive(Clone, Debug, Default, PartialEq, Eq)]\npub struct InstanceExtensions {\n",
        );
    } else {
        out.append(
            "/// Extensions for a [`Device`].\n#[derive(Clone, Debug, Default, PartialEq, Eq)]\npub struct DeviceExtensions {\n",
        );
    }
    emit_fields(&mut out, caps, reg);
    if is_instance {
        out.append("}\n\nimpl InstanceExtensions {\n");
    } else {
        out.append("}\n\nimpl DeviceExtensions {\n");
    }
    emit_from_names(&mut out, caps);
    emit_extension_names(&mut out, caps);
    emit_validate(&mut out, caps, reg, is_instance);
    emit_is_empty(&mut out, caps);
    emit_union(&mut out, caps);
    emit_intersection(&mut out, caps);
    emit_contains(&mut out, caps);
    emit_difference(&mut out, caps);
    out.append("}\n");
    proof {
        assert(out@ =~= spec_generate(reg@, is_instance));
    }
    out
}

/// Resolve a frozen table and generate both scopes' set types: the global
/// (instance) scope's source first, the per-device scope's second. Fails
/// exactly when some requirement references a name the table lacks.
pub fn generate_all(table: &crate::table::CapabilityTable) -> (r: Result<
    (String, String),
    crate::table::BuildError,
>)
    ensures
        (r matches Ok(pair) ==> exists|g: GReg|
            {
                &&& #[trigger] crate::registry::spec_resolve(
                    crate::registry::exts_of(table.extensions@),
                ) == Some(g)
                &&& pair.0@ == spec_generate(g, true)
                &&& pair.1@ == spec_generate(g, false)
            }),
        (r is Err ==> crate::registry::spec_resolve(
            crate::registry::exts_of(table.extensions@),
        ) is None),
{
    match crate::registry::resolve(table) {
        Ok(reg) => {
            let inst = generate_extensions(&reg, true);
            let dev = generate_extensions(&reg, false);
            proof {
                let g = reg@;
                assert(crate::registry::spec_resolve(
                    crate::registry::exts_of(table.extensions@),
                ) == Some(g));
            }
            Ok((inst, dev))
        },
        Err(e) => Err(e),
    }
}

proof fn lemma_insert_view_congruent(
    x: crate::table::Extension,
    y: crate::table::Extension,
    s: Seq<crate::table::Extension>,
    t: Seq<crate::table::Extension>,
)
    requires
        x@ == y@,
        crate::registry::exts_of(s) == crate::registry::exts_of(t),
    ensures
        crate::registry::exts_of(crate::table::spec_insert(x, s)) == crate::registry::exts_of(
            crate::table::spec_insert(y, t),
        ),
    decreases s.len(),
{
    let gs = crate::registry::exts_of(s);
    let gt = crate::registry::exts_of(t);
    assert(gs.len() == s.len());
    assert(gt.len() == t.len());
    assert(s.len() == t.len());
    if s.len() == 0 {
        let a = crate::table::spec_insert(x, s);
        let b = crate::table::spec_insert(y, t);
        assert(a == seq![x]);
        assert(b == seq![y]);
        assert forall|k: int| 0 <= k < crate::registry::exts_of(a).len() implies
            crate::registry::exts_of(a)[k] == crate::registry::exts_of(b)[k] by {
            assert(crate::registry::exts_of(a)[k] == a[k]@);
            assert(crate::registry::exts_of(b)[k] == b[k]@);
        }
        assert(crate::registry::exts_of(a) =~= crate::registry::exts_of(b));
    } else {
        assert(gs[0] == s[0]@);
        assert(gt[0] == t[0]@);
        assert(s[0].name@ == t[0].name@);
        assert(x.name@ == y.name@);
        if crate::text::lex_le(x.name@, s[0].name@) {
            let a = crate::table::spec_insert(x, s);
            let b = crate::table::spec_insert(y, t);
            assert(a == seq![x] + s);
            assert(b == seq![y] + t);
            assert forall|k: int| 0 <= k < crate::registry::exts_of(a).len() implies
                crate::registry::exts_of(a)[k] == crate::registry::exts_of(b)[k] by {
                assert(crate::registry::exts_of(a)[k] == a[k]@);
                assert(crate::registry::exts_of(b)[k] == b[k]@);
                if k > 0 {
                    assert(a[k] == s[k - 1]);
                    assert(b[k] == t[k - 1]);
                    assert(gs[k - 1] == s[k - 1]@);
                    assert(gt[k - 1] == t[k - 1]@);
                }
            }
            assert(crate::registry::exts_of(a) =~= crate::registry::exts_of(b));
        } else {
            let s1 = s.subrange(1, s.len() as int);
            let t1 = t.subrange(1, t.len() as int);
            assert forall|k: int| 0 <= k < crate::registry::exts_of(s1).len() implies
                crate::registry::exts_of(s1)[k] == crate::registry::exts_of(t1)[k] by {
                assert(crate::registry::exts_of(s1)[k] == s1[k]@);
                assert(crate::registry::exts_of(t1)[k] == t1[k]@);
                assert(s1[k] == s[1 + k]);
                assert(t1[k] == t[1 + k]);
                assert(gs[1 + k] == s[1 + k]@);
                assert(gt[1 + k] == t[1 + k]@);
            }
            assert(crate::registry::exts_of(s1) =~= crate::registry::exts_of(t1));
            lemma_insert_view_congruent(x, y, s1, t1);
            let a = crate::table::spec_insert(x, s);
            let b = crate::table::spec_insert(y, t);
            let ra = crate::table::spec_insert(x, s1);
            let rb = crate::table::spec_insert(y, t1);
            assert(a == seq![s[0]] + ra);
            assert(b == seq![t[0]] + rb);
            assert(crate::registry::exts_of(ra).len() == ra.len());
            assert(crate::registry::exts_of(rb).len() == rb.len());
            assert forall|k: int| 0 <= k < crate::registry::exts_of(a).len() implies
                crate::registry::exts_of(a)[k] == crate::registry::exts_of(b)[k] by {
                assert(crate::registry::exts_of(a)[k] == a[k]@);
                assert(crate::registry::exts_of(b)[k] == b[k]@);
                if k > 0 {
                    assert(a[k] == ra[k - 1]);
                    assert(b[k] == rb[k - 1]);
                    assert(crate::registry::exts_of(ra)[k - 1] == ra[k - 1]@);
                    assert(crate::registry::exts_of(rb)[k - 1] == rb[k - 1]@);
                }
            }
            assert(crate::registry::exts_of(a) =~= crate::registry::exts_of(b));
        }
    }
}

proof fn lemma_sort_view_congruent(s: Seq<crate::table::Extension>, t: Seq<
    crate::table::Extension,
>)
    requires
        crate::registry::exts_of(s) == crate::registry::exts_of(t),
    ensures
        crate::registry::exts_of(crate::table::spec_sort(s)) == crate::registry::exts_of(
            crate::table::spec_sort(t),
        ),
    decreases s.len(),
{
    let gs = crate::registry::exts_of(s);
    let gt = crate::registry::exts_of(t);
    assert(gs.len() == s.len());
    assert(gt.len() == t.len());
    assert(s.len() == t.len());
    if s.len() == 0 {
        assert(crate::registry::exts_of(crate::table::spec_sort(s))
            =~= crate::registry::exts_of(crate::table::spec_sort(t)));
    } else {
        assert(gs[s.len() - 1] == s.last()@);
        assert(gt[t.len() - 1] == t.last()@);
        let s1 = s.drop_last();
        let t1 = t.drop_last();
        assert forall|k: int| 0 <= k < crate::registry::exts_of(s1).len() implies
            crate::registry::exts_of(s1)[k] == crate::registry::exts_of(t1)[k] by {
            assert(crate::registry::exts_of(s1)[k] == s1[k]@);
            assert(crate::registry::exts_of(t1)[k] == t1[k]@);
            assert(s1[k] == s[k]);
            assert(t1[k] == t[k]);
            assert(gs[k] == s[k]@);
            assert(gt[k] == t[k]@);
        }
        assert(crate::registry::exts_of(s1) =~= crate::registry::exts_of(t1));
        lemma_sort_view_congruent(s1, t1);
        lemma_insert_view_congruent(
            s.last(),
            t.last(),
            crate::table::spec_sort(s1),
            crate::table::spec_sort(t1),
        );
    }
}

/// Generation is deterministic: two runs over registries whose records
/// carry the same names, scopes and requirement trees freeze to tables with
/// the same content, resolve to the same registry, and so generate
/// byte-identical source for both scopes.
pub proof fn lemma_generation_deterministic(
    a: Seq<crate::table::Extension>,
    b: Seq<crate::table::Extension>,
)
    requires
        crate::registry::exts_of(a) == crate::registry::exts_of(b),
    ensures
        crate::registry::exts_of(crate::table::spec_sort(a)) == crate::registry::exts_of(
            crate::table::spec_sort(b),
        ),
        crate::registry::spec_resolve(crate::registry::exts_of(crate::table::spec_sort(a)))
            == crate::registry::spec_resolve(
            crate::registry::exts_of(crate::table::spec_sort(b)),
        ),
        forall|g: GReg, inst: bool|
            crate::registry::spec_resolve(
                crate::registry::exts_of(crate::table::spec_sort(a)),
            ) == Some(g) ==> #[trigger] spec_generate(g, inst) == spec_generate(g, inst),
{
    lemma_sort_view_congruent(a, b);
}

} // verus!
