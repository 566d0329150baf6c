//! Dependency expressions and their disjunctive normal form.
//!
//! A dependency expression is a tree over capability names and version-floor
//! tokens, with `,` for alternation (OR, lowest precedence), `+` for
//! conjunction (AND, higher precedence) and parentheses for grouping. Parsing
//! yields a disjunction of conjunctions: the requirement is met when any one
//! conjunction is met.

use vstd::prelude::*;

verus! {

/// The mathematical value of one conjunction: an optional version floor and
/// the names that must all be enabled.
pub struct GConj {
    pub api_version: Option<u32>,
    pub extensions: Seq<Seq<char>>,
}

/// One alternative of a requirement: every named capability must be enabled,
/// and the active version must reach `api_version` when one is given.
#[derive(Clone, Debug, PartialEq, Eq)]
pub struct AllOf {
    pub api_version: Option<u32>,
    pub extensions: Vec<String>,
}

impl View for AllOf {
    type V = GConj;

    open spec fn view(&self) -> GConj {
        GConj { api_version: self.api_version, extensions: self.extensions.deep_view() }
    }
}

/// The conjunctions of a sequence of alternatives.
pub open spec fn conjs_of(v: Seq<AllOf>) -> Seq<GConj> {
    Seq::new(v.len(), |i: int| v[i]@)
}

/// A requirement in disjunctive normal form: a set of alternatives, met when
/// any one of them is met. An empty set of alternatives means "no
/// requirement".
#[derive(Clone, Debug, PartialEq, Eq)]
pub struct AnyOf(pub Vec<AllOf>);

impl View for AnyOf {
    type V = Seq<GConj>;

    open spec fn view(&self) -> Seq<GConj> {
        conjs_of(self.0@)
    }
}

impl AllOf {
    /// The alternative "version at least `version`", with no capabilities.
    pub fn from_api_version(version: u32) -> (r: Self)
        ensures
            r@ == (GConj { api_version: Some(version), extensions: Seq::<Seq<char>>::empty() }),
    {
        let r = AllOf { api_version: Some(version), extensions: Vec::new() };
        proof {
            assert(r@.extensions =~= Seq::<Seq<char>>::empty());
        }
        r
    }

    /// The alternative "capability `name` is enabled", with no version floor.
    pub fn from_extension(name: String) -> (r: Self)
        ensures
            r@ == (GConj { api_version: None, extensions: seq![name@] }),
    {
        let mut extensions: Vec<String> = Vec::new();
        let ghost name_view = name@;
        extensions.push(name);
        let r = AllOf { api_version: None, extensions };
        proof {
            assert(r@.extensions =~= seq![name_view]);
        }
        r
    }

    /// A copy whose value equals this one.
    pub fn duplicate(&self) -> (r: Self)
        ensures
            r@ == self@,
    {
        let mut extensions: Vec<String> = Vec::new();
        let n = self.extensions.len();
        let mut i: usize = 0;
        while i < n
            invariant
                n == self.extensions@.len(),
                i <= n,
                extensions@.len() == i,
                forall|k: int| 0 <= k < i ==> extensions@[k]@ == self.extensions@[k]@,
            decreases n - i,
        {
            extensions.push(self.extensions[i].clone());
            i += 1;
        }
        let r = AllOf { api_version: self.api_version, extensions };
        proof {
            assert(r@.extensions =~~= self@.extensions);
        }
        r
    }

    /// The version floor that results from requiring both `a` and `b`: the
    /// later of the two floors, or the one given, or none.
    pub open spec fn max_opt(a: Option<u32>, b: Option<u32>) -> Option<u32> {
        match (a, b) {
            (Some(x), Some(y)) => Some(if x >= y { x } else { y }),
            (Some(x), None) => Some(x),
            (None, Some(y)) => Some(y),
            (None, None) => None,
        }
    }

    /// Combine two alternatives into the one that requires both: the version
    /// floor is the later of the two (an absent floor is no constraint), and
    /// the capability lists are concatenated.
    pub fn merge(&self, other: &AllOf) -> (r: AllOf)
        ensures
            r@ == merge_conj(self@, other@),
            r@.api_version == AllOf::max_opt(self@.api_version, other@.api_version),
    {
        let api_version = match (self.api_version, other.api_version) {
            (Some(x), Some(y)) => Some(if x >= y { x } else { y }),
            (Some(x), None) => Some(x),
            (None, Some(y)) => Some(y),
            (None, None) => None,
        };
        let mut extensions: Vec<String> = Vec::new();
        let n = self.extensions.len();
        let mut i: usize = 0;
        while i < n
            invariant
                n == self.extensions@.len(),
                i <= n,
                extensions@.len() == i,
                forall|k: int| 0 <= k < i ==> extensions@[k]@ == self.extensions@[k]@,
            decreases n - i,
        {
            extensions.push(self.extensions[i].clone());
            i += 1;
        }
        let m = other.extensions.len();
        let mut j: usize = 0;
        while j < m
            invariant
                n == self.extensions@.len(),
                m == other.extensions@.len(),
                j <= m,
                extensions@.len() == n + j,
                forall|k: int| 0 <= k < n ==> extensions@[k]@ == self.extensions@[k]@,
                forall|k: int| 0 <= k < j
                    ==> extensions@[n + k]@ == other.extensions@[k]@,
            decreases m - j,
        {
            extensions.push(other.extensions[j].clone());
            j += 1;
        }
        let r = AllOf { api_version, extensions };
        proof {
            assert(r@.extensions =~~= self@.extensions + other@.extensions);
        }
        r
    }
}

/// The conjunction that requires both `a` and `b`.
pub open spec fn merge_conj(a: GConj, b: GConj) -> GConj {
    GConj {
        api_version: AllOf::max_opt(a.api_version, b.api_version),
        extensions: a.extensions + b.extensions,
    }
}

/// One alternative of the left side combined with every alternative of the
/// right side.
pub open spec fn conj_row(c: GConj, r: Seq<GConj>) -> Seq<GConj> {
    Seq::new(r.len(), |j: int| merge_conj(c, r[j]))
}

/// The product of two sets of alternatives: every pair combined, left
/// alternatives outermost. This is AND distributed over OR.
pub open spec fn distribute(l: Seq<GConj>, r: Seq<GConj>) -> Seq<GConj>
    decreases l.len(),
{
    if l.len() == 0 {
        Seq::empty()
    } else {
        conj_row(l[0], r) + distribute(l.subrange(1, l.len() as int), r)
    }
}

/// Distribution yields the product: conjoining two requirement trees gives
/// one alternative per pair of alternatives of the two sides.
pub proof fn lemma_distribute_len(l: Seq<GConj>, r: Seq<GConj>)
    ensures
        distribute(l, r).len() == l.len() * r.len(),
    decreases l.len(),
{
    if l.len() == 0 {
        assert(l.len() * r.len() == 0) by (nonlinear_arith)
            requires
                l.len() == 0,
        ;
    } else {
        let l1 = l.subrange(1, l.len() as int);
        lemma_distribute_len(l1, r);
        assert(r.len() + (l.len() - 1) * r.len() == l.len() * r.len()) by (nonlinear_arith);
    }
}

proof fn lemma_distribute_push(l: Seq<GConj>, r: Seq<GConj>, c: GConj)
    ensures
        distribute(l.push(c), r) == distribute(l, r) + conj_row(c, r),
    decreases l.len(),
{
    let lp = l.push(c);
    if l.len() == 0 {
        let tail = lp.subrange(1, lp.len() as int);
        assert(tail =~= Seq::<GConj>::empty());
        assert(distribute(tail, r) =~= Seq::<GConj>::empty());
        assert(lp[0] == c);
        assert(distribute(l, r) =~= Seq::<GConj>::empty());
        assert(distribute(lp, r) == conj_row(lp[0], r) + distribute(tail, r));
        assert(distribute(lp, r) =~= distribute(l, r) + conj_row(c, r));
    } else {
        let l1 = l.subrange(1, l.len() as int);
        assert(lp.subrange(1, lp.len() as int) =~= l1.push(c));
        lemma_distribute_push(l1, r, c);
        assert(lp[0] == l[0]);
        assert(distribute(lp, r) == conj_row(lp[0], r) + distribute(
            lp.subrange(1, lp.len() as int),
            r,
        ));
        assert(distribute(lp.subrange(1, lp.len() as int), r) == distribute(l1.push(c), r));
        assert(distribute(l, r) == conj_row(l[0], r) + distribute(l1, r));
        assert(distribute(lp, r) =~= distribute(l, r) + conj_row(c, r));
    }
}

/// The product of two requirement trees.
fn distribute_trees(l: &AnyOf, r: &AnyOf) -> (res: AnyOf)
    ensures
        res@ == distribute(l@, r@),
{
    let mut options: Vec<AllOf> = Vec::new();
    let ln = l.0.len();
    let rn = r.0.len();
    let mut i: usize = 0;
    while i < ln
        invariant
            ln == l.0@.len(),
            rn == r.0@.len(),
            i <= ln,
            conjs_of(options@) == distribute(l@.take(i as int), r@),
        decreases ln - i,
    {
        let mut j: usize = 0;
        while j < rn
            invariant
                ln == l.0@.len(),
                rn == r.0@.len(),
                i < ln,
                j <= rn,
                conjs_of(options@) =~= distribute(l@.take(i as int), r@) + Seq::new(
                    j as nat,
                    |k: int| merge_conj(l@[i as int], r@[k]),
                ),
            decreases rn - j,
        {
            let merged = l.0[i].merge(&r.0[j]);
            let ghost prev = conjs_of(options@);
            options.push(merged);
            proof {
                let cur = conjs_of(options@);
                let want = distribute(l@.take(i as int), r@) + Seq::new(
                    (j + 1) as nat,
                    |k: int| merge_conj(l@[i as int], r@[k]),
                );
                assert(cur.len() == prev.len() + 1);
                assert(prev.len() == distribute(l@.take(i as int), r@).len() + j);
                assert(Seq::new((j + 1) as nat, |k: int| merge_conj(l@[i as int], r@[k])).len()
                    == j + 1);
                assert(cur.len() == want.len());
                assert forall|k: int| 0 <= k < cur.len() implies cur[k] == want[k] by {
                    if k < prev.len() {
                        assert(cur[k] == prev[k]);
                    } else {
                        assert(cur[k] == merged@);
                    }
                }
                assert(cur =~= want);
            }
            j += 1;
        }
        proof {
            assert(Seq::new(rn as nat, |k: int| merge_conj(l@[i as int], r@[k]))
                =~= conj_row(l@[i as int], r@));
            lemma_distribute_push(l@.take(i as int), r@, l@[i as int]);
            assert(l@.take(i as int).push(l@[i as int]) =~= l@.take(i + 1));
            assert(conjs_of(options@) =~= distribute(l@.take(i + 1), r@));
        }
        i += 1;
    }
    proof {
        assert(l@.take(ln as int) =~= l@);
    }
    AnyOf(options)
}

/// Whether `c` ends an atom: a closing parenthesis or an operator.
pub open spec fn is_structural(c: char) -> bool {
    c == ')' || c == ',' || c == '+'
}

/// The version ordinal named by a version-floor token, if `atom` is one.
pub open spec fn version_ordinal_of(atom: Seq<char>) -> Option<u32> {
    if atom == "VK_VERSION_1_0"@ {
        Some(0u32)
    } else if atom == "VK_VERSION_1_1"@ {
        Some(1u32)
    } else if atom == "VK_VERSION_1_2"@ {
        Some(2u32)
    } else if atom == "VK_VERSION_1_3"@ {
        Some(3u32)
    } else if atom == "VK_VERSION_1_4"@ {
        Some(4u32)
    } else if atom == "VK_VERSION_1_5"@ {
        Some(5u32)
    } else if atom == "VK_VERSION_1_6"@ {
        Some(6u32)
    } else {
        None
    }
}

/// The primitive tree of one atom: a version floor for a version token, a
/// single named capability otherwise.
pub open spec fn atom_conjs(atom: Seq<char>) -> Seq<GConj> {
    match version_ordinal_of(atom) {
        Some(v) => seq![GConj { api_version: Some(v), extensions: Seq::empty() }],
        None => seq![GConj { api_version: None, extensions: seq![atom] }],
    }
}

/// The first position at or after `pos` holding a structural character, or
/// the end of the input.
pub open spec fn scan_atom_end(s: Seq<char>, pos: int) -> int
    decreases s.len() - pos,
{
    if pos >= s.len() {
        s.len() as int
    } else if is_structural(s[pos]) {
        pos
    } else {
        scan_atom_end(s, pos + 1)
    }
}

/// The outcome of parsing a subexpression: the alternatives it denotes and
/// the position just past it, or failure.
pub enum PResult {
    POk { conjs: Seq<GConj>, next: int },
    PFail,
}

/// Parse one factor at `pos`: a parenthesized expression or a single atom.
/// Fails on an empty operand or an unmatched parenthesis.
pub open spec fn spec_parse_factor(s: Seq<char>, pos: int) -> PResult
    decreases s.len() - pos, 0int,
{
    if pos < 0 || pos >= s.len() {
        PResult::PFail
    } else if s[pos] == '(' {
        match spec_parse_expr(s, pos + 1) {
            PResult::POk { conjs, next } => {
                if next < s.len() && s[next] == ')' {
                    PResult::POk { conjs, next: next + 1 }
                } else {
                    PResult::PFail
                }
            },
            PResult::PFail => PResult::PFail,
        }
    } else {
        let end0 = scan_atom_end(s, pos);
        if end0 <= pos {
            PResult::PFail
        } else {
            let end = if end0 > s.len() {
                s.len() as int
            } else {
                end0
            };
            PResult::POk { conjs: atom_conjs(s.subrange(pos, end)), next: end }
        }
    }
}

/// Parse one term at `pos`: factors joined by `+`, which binds tighter than
/// `,`. Every pair of alternatives across a `+` is combined, so the result
/// stays in disjunctive normal form.
pub open spec fn spec_parse_term(s: Seq<char>, pos: int) -> PResult
    decreases s.len() - pos, 1int,
{
    match spec_parse_factor(s, pos) {
        PResult::POk { conjs, next } => {
            if pos < next <= s.len() && next < s.len() && s[next] == '+' {
                match spec_parse_term(s, next + 1) {
                    PResult::POk { conjs: rhs, next: n2 } => PResult::POk {
                        conjs: distribute(conjs, rhs),
                        next: n2,
                    },
                    PResult::PFail => PResult::PFail,
                }
            } else {
                PResult::POk { conjs, next }
            }
        },
        PResult::PFail => PResult::PFail,
    }
}

/// Parse one expression at `pos`: terms joined by `,`, the loosest
/// operator. Alternation concatenates the alternative lists.
pub open spec fn spec_parse_expr(s: Seq<char>, pos: int) -> PResult
    decreases s.len() - pos, 2int,
{
    match spec_parse_term(s, pos) {
        PResult::POk { conjs, next } => {
            if pos < next <= s.len() && next < s.len() && s[next] == ',' {
                match spec_parse_expr(s, next + 1) {
                    PResult::POk { conjs: rhs, next: n2 } => PResult::POk {
                        conjs: conjs + rhs,
                        next: n2,
                    },
                    PResult::PFail => PResult::PFail,
                }
            } else {
                PResult::POk { conjs, next }
            }
        },
        PResult::PFail => PResult::PFail,
    }
}

/// The requirement denoted by a whole dependency expression, or nothing if
/// the expression is malformed (empty operand, unmatched parenthesis, or
/// trailing input).
pub open spec fn spec_parse(s: Seq<char>) -> Option<Seq<GConj>> {
    match spec_parse_expr(s, 0) {
        PResult::POk { conjs, next } => if next == s.len() {
            Some(conjs)
        } else {
            None
        },
        PResult::PFail => None,
    }
}

/// Why a dependency expression was rejected.
#[derive(Clone, Copy, Debug, PartialEq, Eq, Structural)]
pub enum ParseErrorKind {
    /// A `(` group is not closed by `)`, or a stray `)` cuts the input short.
    UnmatchedParenthesis,
    /// An operand is empty, as in `a++b` or an empty input.
    EmptyOperand,
}

/// A rejected dependency expression, with the raw input that was rejected.
#[derive(Clone, Debug)]
pub struct ParseError {
    pub kind: ParseErrorKind,
    pub offending: String,
}

/// Turn one atom into its primitive tree.
fn atom_tree(atom: &str) -> (r: AnyOf)
    ensures
        r@ == atom_conjs(atom@),
{
    let prim: AllOf = if crate::text::str_eq(atom, "VK_VERSION_1_0") {
        AllOf::from_api_version(0)
    } else if crate::text::str_eq(atom, "VK_VERSION_1_1") {
        AllOf::from_api_version(1)
    } else if crate::text::str_eq(atom, "VK_VERSION_1_2") {
        AllOf::from_api_version(2)
    } else if crate::text::str_eq(atom, "VK_VERSION_1_3") {
        AllOf::from_api_version(3)
    } else if crate::text::str_eq(atom, "VK_VERSION_1_4") {
        AllOf::from_api_version(4)
    } else if crate::text::str_eq(atom, "VK_VERSION_1_5") {
        AllOf::from_api_version(5)
    } else if crate::text::str_eq(atom, "VK_VERSION_1_6") {
        AllOf::from_api_version(6)
    } else {
        AllOf::from_extension(atom.to_owned())
    };
    let ghost prim_view = prim@;
    let mut v: Vec<AllOf> = Vec::new();
    v.push(prim);
    let r = AnyOf(v);
    proof {
        assert(r@ =~= seq![prim_view]);
        assert(r@ =~= atom_conjs(atom@));
    }
    r
}

/// Whether the character at `pos` is structural.
fn structural_at(s: &str, pos: usize) -> (r: bool)
    requires
        pos < s@.len(),
    ensures
        r == is_structural(s@[pos as int]),
{
    let c = s.get_char(pos);
    c == ')' || c == ',' || c == '+'
}

/// Parse one factor starting at `pos`.
fn parse_factor(s: &str, pos: usize) -> (r: Result<(AnyOf, usize), ParseErrorKind>)
    requires
        pos <= s@.len(),
    ensures
        (r matches Ok(t) ==> spec_parse_factor(s@, pos as int) == (PResult::POk {
            conjs: t.0@,
            next: t.1 as int,
        }) && pos < t.1 <= s@.len()),
        (r is Err ==> spec_parse_factor(s@, pos as int) == PResult::PFail),
    decreases s@.len() - pos, 0int,
{
    let len = s.unicode_len();
    if pos >= len {
        return Err(ParseErrorKind::EmptyOperand);
    }
    let c = s.get_char(pos);
    if c == '(' {
        match parse_expr(s, pos + 1) {
            Ok((group, close)) => {
                if close < len && s.get_char(close) == ')' {
                    Ok((group, close + 1))
                } else {
                    Err(ParseErrorKind::UnmatchedParenthesis)
                }
            },
            Err(e) => Err(e),
        }
    } else {
        let mut end = pos;
        while end < len && !structural_at(s, end)
            invariant
                len == s@.len(),
                pos <= end <= len,
                scan_atom_end(s@, pos as int) == scan_atom_end(s@, end as int),
            decreases len - end,
        {
            end += 1;
        }
        proof {
            assert(scan_atom_end(s@, end as int) == end);
        }
        if end == pos {
            return Err(ParseErrorKind::EmptyOperand);
        }
        let atom = s.substring_char(pos, end);
        let prim = atom_tree(atom);
        Ok((prim, end))
    }
}

/// Parse one term starting at `pos`, distributing over `+`.
fn parse_term(s: &str, pos: usize) -> (r: Result<(AnyOf, usize), ParseErrorKind>)
    requires
        pos <= s@.len(),
    ensures
        (r matches Ok(t) ==> spec_parse_term(s@, pos as int) == (PResult::POk {
            conjs: t.0@,
            next: t.1 as int,
        }) && pos < t.1 <= s@.len()),
        (r is Err ==> spec_parse_term(s@, pos as int) == PResult::PFail),
    decreases s@.len() - pos, 1int,
{
    let len = s.unicode_len();
    let (lhs, p) = match parse_factor(s, pos) {
        Ok(v) => v,
        Err(e) => {
            return Err(e);
        },
    };
    if p < len && s.get_char(p) == '+' {
        match parse_term(s, p + 1) {
            Ok((rhs, p2)) => {
                let product = distribute_trees(&lhs, &rhs);
                Ok((product, p2))
            },
            Err(e) => Err(e),
        }
    } else {
        Ok((lhs, p))
    }
}

/// Parse one expression starting at `pos`, concatenating over `,`.
fn parse_expr(s: &str, pos: usize) -> (r: Result<(AnyOf, usize), ParseErrorKind>)
    requires
        pos <= s@.len(),
    ensures
        (r matches Ok(t) ==> spec_parse_expr(s@, pos as int) == (PResult::POk {
            conjs: t.0@,
            next: t.1 as int,
        }) && pos < t.1 <= s@.len()),
        (r is Err ==> spec_parse_expr(s@, pos as int) == PResult::PFail),
    decreases s@.len() - pos, 2int,
{
    let len = s.unicode_len();
    let (lhs, p) = match parse_term(s, pos) {
        Ok(v) => v,
        Err(e) => {
            return Err(e);
        },
    };
    if p < len && s.get_char(p) == ',' {
        match parse_expr(s, p + 1) {
            Ok((rhs, p2)) => {
                let mut combined = lhs;
                let ghost lhs_view = combined@;
                let ghost lhs_len = combined.0@.len();
                let rn = rhs.0.len();
                let mut j: usize = 0;
                while j < rn
                    invariant
                        rn == rhs.0@.len(),
                        j <= rn,
                        combined.0@.len() == lhs_len + j,
                        forall|k: int| 0 <= k < lhs_len ==> combined.0@[k]@ == lhs_view[k],
                        forall|k: int| 0 <= k < j
                            ==> combined.0@[lhs_len + k]@ == rhs@[k],
                    decreases rn - j,
                {
                    let item = rhs.0[j].duplicate();
                    combined.0.push(item);
                    j += 1;
                }
                proof {
                    assert(combined@ =~~= lhs_view + rhs@);
                }
                Ok((combined, p2))
            },
            Err(e) => Err(e),
        }
    } else {
        Ok((lhs, p))
    }
}

/// Parse a dependency expression into its disjunctive normal form.
///
/// Alternation (`,`) concatenates alternative lists; conjunction (`+`)
/// combines every alternative of one side with every alternative of the
/// other, taking the later version floor of each pair. Malformed input — an
/// empty operand, an unmatched parenthesis, or trailing input after a
/// complete expression — is rejected with the raw input attached.
pub fn parse_dependencies(input: &str) -> (r: Result<AnyOf, ParseError>)
    ensures
        r.is_ok() <==> spec_parse(input@) is Some,
        (r matches Ok(tree) ==> spec_parse(input@) == Some(tree@)),
        (r matches Err(e) ==> e.offending@ == input@),
{
    match parse_expr(input, 0) {
        Ok((tree, next)) => {
            let len = input.unicode_len();
            if next == len {
                Ok(tree)
            } else {
                Err(ParseError {
                    kind: ParseErrorKind::UnmatchedParenthesis,
                    offending: input.to_owned(),
                })
            }
        }
        Err(kind) => Err(ParseError { kind, offending: input.to_owned() }),
    }
}

} // verus!
