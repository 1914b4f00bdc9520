use vstd::prelude::*;

use crate::ast::{same_name, same_pattern, same_shape, ASTNode, Rule, RuleKind};
use crate::span::Span;
use crate::warning::{Warning, WarningKind};

verus! {

/// The warning that rules `i` and `j` have the same pattern.
pub open spec fn identical_warning<'src>(rules: Seq<Rule<'src>>, i: int, j: int) -> Warning<'src> {
    Warning {
        kind: WarningKind::IdenticalRulePatterns {
            name1: rules[i].name,
            span1: rules[i].name_span,
            name2: rules[j].name,
            span2: rules[j].name_span,
        },
        span: rules[j].name_span,
    }
}

/// The warnings for rule `a` against rules `a + 1 .. b`, in rule order.
pub open spec fn identical_row<'src>(rules: Seq<Rule<'src>>, a: int, b: int) -> Seq<Warning<'src>>
    decreases b - a,
{
    if b <= a + 1 {
        Seq::empty()
    } else {
        identical_row(rules, a, b - 1) + if same_shape(rules[a].pattern, rules[b - 1].pattern) {
            seq![identical_warning(rules, a, b - 1)]
        } else {
            Seq::empty()
        }
    }
}

/// The warnings of every pair `(a, b)` with `a < i` and `a < b`, ordered by `a`, then `b`.
pub open spec fn identical_rows<'src>(rules: Seq<Rule<'src>>, i: int) -> Seq<Warning<'src>>
    decreases i,
{
    if i <= 0 {
        Seq::empty()
    } else {
        identical_rows(rules, i - 1) + identical_row(rules, i - 1, rules.len() as int)
    }
}

/// Reports each pair of rules whose patterns are equal in structure, spans aside,
/// once, the earlier rule named first, pairs ordered by their first and then
/// their second rule.
pub fn identical_rule_patterns<'src>(rules: &Vec<Rule<'src>>) -> (r: Vec<Warning<'src>>)
    ensures
        r@ == identical_rows(rules@, rules@.len() as int),
{
    let mut out: Vec<Warning<'src>> = Vec::new();
    let n = rules.len();
    let mut i: usize = 0;
    while i < n
        invariant
            n == rules@.len(),
            i <= n,
            out@ == identical_rows(rules@, i as int),
        decreases n - i,
    {
        let mut j: usize = i + 1;
        while j < n
            invariant
                n == rules@.len(),
                i < n,
                i + 1 <= j <= n,
                out@ == identical_rows(rules@, i as int) + identical_row(rules@, i as int, j as int),
            decreases n - j,
        {
            let ghost before = out@;
            if same_pattern(&rules[i].pattern, &rules[j].pattern) {
                out.push(
                    Warning {
                        kind: WarningKind::IdenticalRulePatterns {
                            name1: rules[i].name,
                            span1: rules[i].name_span,
                            name2: rules[j].name,
                            span2: rules[j].name_span,
                        },
                        span: rules[j].name_span,
                    },
                );
            }
            j = j + 1;
            assert(out@ =~= identical_rows(rules@, i as int) + identical_row(rules@, i as int, j as int));
        }
        i = i + 1;
        assert(out@ =~= identical_rows(rules@, i as int));
    }
    out
}

/// Whether a pattern needs no parentheses to stand as one operand.
pub open spec fn is_atomic(n: ASTNode) -> bool {
    match n {
        ASTNode::Literal { .. } => true,
        ASTNode::Reference { .. } => true,
        ASTNode::CharClass { .. } => true,
        ASTNode::AnyChar => true,
        ASTNode::Group { .. } => true,
        _ => false,
    }
}

/// Spans of the groups in `n` around an atomic pattern, in preorder.
pub open spec fn redundant_groups(n: ASTNode) -> Seq<Span>
    decreases n,
{
    match n {
        ASTNode::Group { inner, span } => if is_atomic(*inner) {
            seq![span] + redundant_groups(*inner)
        } else {
            redundant_groups(*inner)
        },
        ASTNode::Alternation { left, right } => redundant_groups(*left) + redundant_groups(*right),
        ASTNode::Concat { left, right } => redundant_groups(*left) + redundant_groups(*right),
        ASTNode::Repeat0 { inner } => redundant_groups(*inner),
        ASTNode::Repeat1 { inner } => redundant_groups(*inner),
        ASTNode::Optional { inner } => redundant_groups(*inner),
        ASTNode::Range { inner, .. } => redundant_groups(*inner),
        _ => Seq::empty(),
    }
}

pub open spec fn paren_warning<'src>(span: Span) -> Warning<'src> {
    Warning { kind: WarningKind::UnnecessaryParanthesis, span }
}

/// The parenthesis warnings of a pattern, in preorder.
pub open spec fn paren_warnings<'src>(n: ASTNode<'src>) -> Seq<Warning<'src>> {
    redundant_groups(n).map_values(|s: Span| paren_warning(s))
}

/// The parenthesis warnings of the first `k` rules, rule by rule.
pub open spec fn rules_paren_warnings<'src>(rules: Seq<Rule<'src>>, k: int) -> Seq<Warning<'src>>
    decreases k,
{
    if k <= 0 || k > rules.len() {
        Seq::empty()
    } else {
        rules_paren_warnings(rules, k - 1) + paren_warnings(rules[k - 1].pattern)
    }
}

fn atomic(n: &ASTNode) -> (r: bool)
    ensures
        r == is_atomic(*n),
{
    match n {
        ASTNode::Literal { .. } => true,
        ASTNode::Reference { .. } => true,
        ASTNode::CharClass { .. } => true,
        ASTNode::AnyChar => true,
        ASTNode::Group { .. } => true,
        _ => false,
    }
}

fn collect_groups<'src>(n: &ASTNode<'src>, out: &mut Vec<Warning<'src>>)
    ensures
        final(out)@ == old(out)@ + paren_warnings(*n),
    decreases n,
{
    let ghost start = out@;
    match n {
        ASTNode::Group { inner, span } => {
            if atomic(inner) {
                out.push(Warning { kind: WarningKind::UnnecessaryParanthesis, span: *span });
            }
            collect_groups(inner, out);
        },
        ASTNode::Alternation { left, right } => {
            collect_groups(left, out);
            collect_groups(right, out);
        },
        ASTNode::Concat { left, right } => {
            collect_groups(left, out);
            collect_groups(right, out);
        },
        ASTNode::Repeat0 { inner } => collect_groups(inner, out),
        ASTNode::Repeat1 { inner } => collect_groups(inner, out),
        ASTNode::Optional { inner } => collect_groups(inner, out),
        ASTNode::Range { inner, .. } => collect_groups(inner, out),
        _ => {},
    }
    proof {
        match n {
            ASTNode::Group { inner, span } => {
                if is_atomic(**inner) {
                    assert(paren_warnings(*n) =~= seq![paren_warning(*span)]
                        + paren_warnings(**inner));
                }
            },
            ASTNode::Alternation { left, right } => {
                assert(paren_warnings(*n) =~= paren_warnings(**left)
                    + paren_warnings(**right));
            },
            ASTNode::Concat { left, right } => {
                assert(paren_warnings(*n) =~= paren_warnings(**left)
                    + paren_warnings(**right));
            },
            _ => {},
        }
        assert(out@ =~= start + paren_warnings(*n));
    }
}

/// Reports each group around a pattern that is already atomic (a literal, a
/// reference, a class, `.` or another group), rule by rule, in preorder.
pub fn unnecessary_parentheses<'src>(rules: &Vec<Rule<'src>>) -> (r: Vec<Warning<'src>>)
    ensures
        r@ == rules_paren_warnings(rules@, rules@.len() as int),
{
    let mut out: Vec<Warning<'src>> = Vec::new();
    let mut i: usize = 0;
    while i < rules.len()
        invariant
            i <= rules@.len(),
            out@ == rules_paren_warnings(rules@, i as int),
        decreases rules@.len() - i,
    {
        collect_groups(&rules[i].pattern, &mut out);
        i = i + 1;
    }
    out
}

/// Whether pattern `n` holds a reference to the rule named `name`.
pub open spec fn mentions(n: ASTNode, name: Seq<char>) -> bool
    decreases n,
{
    match n {
        ASTNode::Reference { name: x, .. } => x@ == name,
        ASTNode::Alternation { left, right } => mentions(*left, name) || mentions(*right, name),
        ASTNode::Concat { left, right } => mentions(*left, name) || mentions(*right, name),
        ASTNode::Repeat0 { inner } => mentions(*inner, name),
        ASTNode::Repeat1 { inner } => mentions(*inner, name),
        ASTNode::Optional { inner } => mentions(*inner, name),
        ASTNode::Group { inner, .. } => mentions(*inner, name),
        ASTNode::Range { inner, .. } => mentions(*inner, name),
        _ => false,
    }
}

/// Whether rule `i`'s pattern refers to rule `j`.
pub open spec fn refers(rules: Seq<Rule>, i: int, j: int) -> bool {
    mentions(rules[i].pattern, rules[j].name@)
}

/// Whether rule `j` emits or skips input, rather than only helping other rules.
pub open spec fn is_root(rules: Seq<Rule>, j: int) -> bool {
    rules[j].kind != RuleKind::Helper
}

/// Whether `path` is a chain of references that starts at a token or skip
/// rule and ends at rule `j`.
pub open spec fn is_path(rules: Seq<Rule>, path: Seq<int>, j: int) -> bool {
    &&& path.len() > 0
    &&& forall|t: int| 0 <= t < path.len() ==> 0 <= #[trigger] path[t] < rules.len()
    &&& is_root(rules, path[0])
    &&& path.last() == j
    &&& forall|t: int| 0 <= t < path.len() - 1 ==> #[trigger] refers(rules, path[t], path[t + 1])
}

/// Whether rule `j` is reached from a token or skip rule through references.
pub open spec fn reachable(rules: Seq<Rule>, j: int) -> bool {
    exists|path: Seq<int>| #[trigger] is_path(rules, path, j)
}

pub open spec fn unused_warning<'src>(rules: Seq<Rule<'src>>, j: int) -> Warning<'src> {
    Warning { kind: WarningKind::UnusedHelperRule, span: rules[j].name_span }
}

pub open spec fn unused_helper(rules: Seq<Rule>, j: int) -> bool {
    0 <= j < rules.len() && rules[j].kind == RuleKind::Helper && !reachable(rules, j)
}

/// The warnings of the helper rules among the first `k` that nothing reaches, in rule order.
pub open spec fn unused_warnings<'src>(rules: Seq<Rule<'src>>, k: int) -> Seq<Warning<'src>>
    decreases k,
{
    if k <= 0 {
        Seq::empty()
    } else {
        unused_warnings(rules, k - 1) + if unused_helper(rules, k - 1) {
            seq![unused_warning(rules, k - 1)]
        } else {
            Seq::empty()
        }
    }
}

pub open spec fn count_false(s: Seq<bool>) -> nat
    decreases s.len(),
{
    if s.len() == 0 {
        0
    } else {
        count_false(s.drop_last()) + if s.last() {
            0nat
        } else {
            1nat
        }
    }
}

proof fn lemma_count_false_set(s: Seq<bool>, j: int)
    requires
        0 <= j < s.len(),
        !s[j],
    ensures
        count_false(s.update(j, true)) + 1 == count_false(s),
    decreases s.len(),
{
    if j < s.len() - 1 {
        lemma_count_false_set(s.drop_last(), j);
        assert(s.update(j, true).drop_last() =~= s.drop_last().update(j, true));
    } else {
        assert(s.update(j, true).drop_last() =~= s.drop_last());
    }
}

/// A set of rules that holds every root and is closed under references holds
/// every rule on a path.
proof fn lemma_closed_holds_path(rules: Seq<Rule>, used: Seq<bool>, path: Seq<int>, j: int, t: int)
    requires
        used.len() == rules.len(),
        forall|a: int| 0 <= a < rules.len() && is_root(rules, a) ==> used[a],
        forall|a: int, b: int|
            0 <= a < rules.len() && 0 <= b < rules.len() && used[a] && #[trigger] refers(rules, a, b)
                ==> used[b],
        is_path(rules, path, j),
        0 <= t < path.len(),
    ensures
        used[path[t]],
    decreases t,
{
    if t > 0 {
        lemma_closed_holds_path(rules, used, path, j, t - 1);
        assert(refers(rules, path[t - 1], path[(t - 1) + 1]));
    }
}

proof fn lemma_path_step(rules: Seq<Rule>, path: Seq<int>, i: int, j: int)
    requires
        0 <= j < rules.len(),
        is_path(rules, path, i),
        refers(rules, i, j),
    ensures
        is_path(rules, path.push(j), j),
{
    let p2 = path.push(j);
    assert forall|t: int| 0 <= t < p2.len() - 1 implies #[trigger] refers(rules, p2[t], p2[t + 1]) by {
        if t < path.len() - 1 {
            assert(p2[t] == path[t] && p2[t + 1] == path[t + 1]);
        } else {
            assert(p2[t] == i && p2[t + 1] == j);
        }
    }
    assert forall|t: int| 0 <= t < p2.len() implies 0 <= #[trigger] p2[t] < rules.len() by {
        if t < path.len() {
            assert(p2[t] == path[t]);
        }
    }
}

fn mentions_name(n: &ASTNode, name: &str) -> (r: bool)
    ensures
        r == mentions(*n, name@),
    decreases n,
{
    match n {
        ASTNode::Reference { name: x, .. } => same_name(x, name),
        ASTNode::Alternation { left, right } => mentions_name(left, name) || mentions_name(right, name),
        ASTNode::Concat { left, right } => mentions_name(left, name) || mentions_name(right, name),
        ASTNode::Repeat0 { inner } => mentions_name(inner, name),
        ASTNode::Repeat1 { inner } => mentions_name(inner, name),
        ASTNode::Optional { inner } => mentions_name(inner, name),
        ASTNode::Group { inner, .. } => mentions_name(inner, name),
        ASTNode::Range { inner, .. } => mentions_name(inner, name),
        _ => false,
    }
}

/// Marks the rules that token and skip rules reach through references:
/// `used[j]` holds exactly when rule `j` is reached.
fn reached_rules(rules: &Vec<Rule>) -> (used: Vec<bool>)
    ensures
        used@.len() == rules@.len(),
        forall|j: int| 0 <= j < rules@.len() ==> (used@[j] <==> reachable(rules@, j)),
{
    let n = rules.len();
    let mut used: Vec<bool> = Vec::new();
    let mut i: usize = 0;
    while i < n
        invariant
            n == rules@.len(),
            i <= n,
            used@.len() == i,
            forall|j: int| 0 <= j < i ==> (used@[j] <==> is_root(rules@, j)),
        decreases n - i,
    {
        let root = match rules[i].kind {
            RuleKind::Helper => false,
            _ => true,
        };
        used.push(root);
        i = i + 1;
    }
    proof {
        assert forall|j: int| 0 <= j < n && used@[j] implies reachable(rules@, j) by {
            assert(is_path(rules@, seq![j], j));
        }
    }
    loop
        invariant
            n == rules@.len(),
            used@.len() == n,
            forall|j: int| 0 <= j < n && is_root(rules@, j) ==> used@[j],
            forall|j: int| 0 <= j < n && used@[j] ==> reachable(rules@, j),
        ensures
            used@.len() == n,
            forall|j: int| 0 <= j < n && is_root(rules@, j) ==> used@[j],
            forall|j: int| 0 <= j < n && used@[j] ==> reachable(rules@, j),
            forall|a: int, b: int|
                0 <= a < n && 0 <= b < n && used@[a] && #[trigger] refers(rules@, a, b) ==> used@[b],
        decreases count_false(used@),
    {
        let ghost pass_start = used@;
        let mut changed = false;
        let mut a: usize = 0;
        while a < n
            invariant
                n == rules@.len(),
                used@.len() == n,
                a <= n,
                forall|j: int| 0 <= j < n && is_root(rules@, j) ==> used@[j],
                forall|j: int| 0 <= j < n && used@[j] ==> reachable(rules@, j),
                !changed ==> used@ == pass_start,
                changed ==> count_false(used@) < count_false(pass_start),
                !changed ==> forall|x: int, y: int|
                    0 <= x < a && 0 <= y < n && used@[x] && #[trigger] refers(rules@, x, y)
                        ==> used@[y],
            decreases n - a,
        {
            if used[a] {
                let mut b: usize = 0;
                while b < n
                    invariant
                        n == rules@.len(),
                        used@.len() == n,
                        a < n,
                        b <= n,
                        used@[a as int],
                        forall|j: int| 0 <= j < n && is_root(rules@, j) ==> used@[j],
                        forall|j: int| 0 <= j < n && used@[j] ==> reachable(rules@, j),
                        !changed ==> used@ == pass_start,
                        changed ==> count_false(used@) < count_false(pass_start),
                        !changed ==> forall|x: int, y: int|
                            0 <= x < a && 0 <= y < n && used@[x] && #[trigger] refers(rules@, x, y)
                                ==> used@[y],
                        !changed ==> forall|y: int|
                            0 <= y < b && #[trigger] refers(rules@, a as int, y) ==> used@[y],
                    decreases n - b,
                {
                    if !used[b] && mentions_name(&rules[a].pattern, rules[b].name) {
                        proof {
                            let path = choose|path: Seq<int>| #[trigger] is_path(rules@, path, a as int);
                            assert(refers(rules@, a as int, b as int));
                            lemma_path_step(rules@, path, a as int, b as int);
                            lemma_count_false_set(used@, b as int);
                        }
                        used.set(b, true);
                        changed = true;
                    }
                    b = b + 1;
                }
            }
            a = a + 1;
        }
        if !changed {
            break;
        }
    }
    proof {
        assert forall|j: int| 0 <= j < n && reachable(rules@, j) implies used@[j] by {
            let path = choose|path: Seq<int>| #[trigger] is_path(rules@, path, j);
            lemma_closed_holds_path(rules@, used@, path, j, path.len() - 1);
        }
    }
    used
}

/// Reports each helper rule that no token or skip rule reaches, directly or
/// through other rules, once, in rule order.
pub fn unused_helper_rules<'src>(rules: &Vec<Rule<'src>>) -> (r: Vec<Warning<'src>>)
    ensures
        r@ == unused_warnings(rules@, rules@.len() as int),
{
    let used = reached_rules(rules);
    let mut out: Vec<Warning<'src>> = Vec::new();
    let mut j: usize = 0;
    while j < rules.len()
        invariant
            used@.len() == rules@.len(),
            forall|x: int| 0 <= x < rules@.len() ==> (used@[x] <==> reachable(rules@, x)),
            j <= rules@.len(),
            out@ == unused_warnings(rules@, j as int),
        decreases rules@.len() - j,
    {
        let helper = match rules[j].kind {
            RuleKind::Helper => true,
            _ => false,
        };
        if helper && !used[j] {
            out.push(Warning { kind: WarningKind::UnusedHelperRule, span: rules[j].name_span });
        }
        j = j + 1;
        assert(out@ =~= unused_warnings(rules@, j as int));
    }
    out
}

} // verus!
