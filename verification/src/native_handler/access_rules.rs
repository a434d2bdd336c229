//! Access rules evaluated against JWT claims: a rule either refuses the
//! request or allows it with the `WHERE` conditions that the query must add.

use vstd::prelude::*;
use crate::native_handler::jwt::JwtClaims;
use crate::native_handler::sql_builder::{ParamValue, ParamView};
use crate::text::{debug_quoted, join, push_str, str_debug, str_eq};

verus! {

/// A rule, as the server's rule descriptors write it.
#[derive(Debug)]
pub enum AccessRule {
    Public,
    Authenticated,
    Where { conditions: Vec<(String, WhereValue)> },
    All { rules: Vec<AccessRule> },
    Any { rules: Vec<AccessRule> },
    Role { roles: Vec<String> },
    Entitlement { entitlement: String },
}

/// The value a `Where` condition compares a column with: a marker that
/// stands for a claim of the user, or a literal.
#[derive(Debug)]
pub enum WhereValue {
    Marker(UserMarker),
    Literal(ParamValue),
}

/// A marker such as `user.id` or `user.tenantId`.
#[derive(Debug)]
pub struct UserMarker {
    pub marker: String,
}

/// An allowed request and the conditions to add to its query.
#[derive(Debug)]
pub struct EvalResult {
    pub allowed: bool,
    pub where_conditions: Vec<(String, ParamValue)>,
}

/// A refused request.
#[derive(Debug)]
pub enum AccessError {
    Denied(String),
}

impl AccessError {
    /// `Access denied: <reason>`.
    pub fn to_string(&self) -> (r: String)
        ensures
            r@ == "Access denied: "@ + self.reason(),
    {
        match self {
            AccessError::Denied(msg) => {
                let mut r = String::from_str("Access denied: ");
                push_str(&mut r, msg.as_str());
                r
            },
        }
    }

    pub open spec fn reason(&self) -> Seq<char> {
        match self {
            AccessError::Denied(msg) => msg@,
        }
    }
}

/// The outcome of an evaluation: the conditions (column, value) or the
/// reason of the refusal.
pub type Outcome = Result<Seq<(Seq<char>, ParamView)>, Seq<char>>;

/// `{:?}` of a list of strings: `["a", "b"]`.
pub open spec fn debug_list(items: Seq<Seq<char>>) -> Seq<char> {
    "["@ + join(items.map_values(|s: Seq<char>| str_debug(s)), ", "@) + "]"@
}

/// What a condition value resolves to under the claims.
pub open spec fn resolve_spec(v: WhereValue, claims: JwtClaims) -> Result<ParamView, Seq<char>> {
    match v {
        WhereValue::Literal(x) => Ok(x@),
        WhereValue::Marker(m) => if m.marker@ == "user.id"@ {
            Ok(ParamView::Text(claims.sub@))
        } else if m.marker@ == "user.tenantId"@ {
            match claims.tenant_id {
                Some(t) => Ok(ParamView::Text(t@)),
                None => Ok(ParamView::Null),
            }
        } else {
            Err("Unknown user marker: "@ + m.marker@)
        },
    }
}

/// The conditions resolved in order; the first that cannot be resolved
/// refuses.
pub open spec fn where_spec(conds: Seq<(String, WhereValue)>, claims: JwtClaims) -> Outcome
    decreases conds.len(),
{
    if conds.len() == 0 {
        Ok(seq![])
    } else {
        match where_spec(conds.drop_last(), claims) {
            Err(e) => Err(e),
            Ok(prefix) => match resolve_spec(conds.last().1, claims) {
                Err(e) => Err(e),
                Ok(v) => Ok(prefix.push((conds.last().0@, v))),
            },
        }
    }
}

/// Whether one of the user's roles is among the roles.
pub open spec fn has_role(claims: JwtClaims, roles: Seq<String>) -> bool {
    exists|i: int, j: int|
        0 <= i < claims.roles@.len() && 0 <= j < roles.len() && claims.roles@[i]@ == roles[j]@
}

/// The evaluation of a rule.
pub open spec fn eval_spec(rule: AccessRule, claims: JwtClaims) -> Outcome
    decreases rule,
{
    match rule {
        AccessRule::Public => Ok(seq![]),
        AccessRule::Authenticated => if claims.sub@.len() == 0 {
            Err("Not authenticated"@)
        } else {
            Ok(seq![])
        },
        AccessRule::Role { roles } => if has_role(claims, roles@) {
            Ok(seq![])
        } else {
            Err("Requires role: "@ + debug_list(roles@.map_values(|r: String| r@)))
        },
        AccessRule::Entitlement { entitlement } => Err(
            "Entitlement check not implemented in POC: "@ + entitlement@,
        ),
        AccessRule::Where { conditions } => where_spec(conditions@, claims),
        AccessRule::All { rules } => all_spec(rules@, claims),
        AccessRule::Any { rules } => any_spec(rules@, claims),
    }
}

/// Every rule must allow; their conditions are put together in order, and
/// the first refusal refuses.
pub open spec fn all_spec(rules: Seq<AccessRule>, claims: JwtClaims) -> Outcome
    decreases rules,
{
    if rules.len() == 0 {
        Ok(seq![])
    } else {
        let prefix = rules.subrange(0, rules.len() - 1);
        match all_spec(prefix, claims) {
            Err(e) => Err(e),
            Ok(acc) => match eval_spec(rules[rules.len() - 1], claims) {
                Err(e) => Err(e),
                Ok(w) => Ok(acc + w),
            },
        }
    }
}

/// The first rule that allows decides; where none does, the last refusal
/// (or `No rules matched` for no rules) refuses.
pub open spec fn any_spec(rules: Seq<AccessRule>, claims: JwtClaims) -> Outcome
    decreases rules,
{
    if rules.len() == 0 {
        Err("No rules matched"@)
    } else {
        let prefix = rules.subrange(0, rules.len() - 1);
        match any_spec(prefix, claims) {
            Ok(x) => Ok(x),
            Err(_) => eval_spec(rules[rules.len() - 1], claims),
        }
    }
}

pub open spec fn conds_view(v: Seq<(String, ParamValue)>) -> Seq<(Seq<char>, ParamView)> {
    v.map_values(|c: (String, ParamValue)| (c.0@, c.1@))
}

/// The outcome of a call to `evaluate`.
pub open spec fn outcome_of(r: Result<EvalResult, AccessError>) -> Outcome {
    match r {
        Ok(res) => Ok(conds_view(res.where_conditions@)),
        Err(e) => Err(e.reason()),
    }
}

fn resolve_where_value(value: &WhereValue, claims: &JwtClaims) -> (r: Result<ParamValue, AccessError>)
    ensures
        match r {
            Ok(v) => resolve_spec(*value, *claims) == Ok::<ParamView, Seq<char>>(v@),
            Err(e) => resolve_spec(*value, *claims) == Err::<ParamView, Seq<char>>(e.reason()),
        },
{
    match value {
        WhereValue::Literal(v) => Ok(v.copy()),
        WhereValue::Marker(m) => {
            if str_eq(m.marker.as_str(), "user.id") {
                Ok(ParamValue::Text(claims.sub.clone()))
            } else if str_eq(m.marker.as_str(), "user.tenantId") {
                match &claims.tenant_id {
                    Some(t) => Ok(ParamValue::Text(t.clone())),
                    None => Ok(ParamValue::Null),
                }
            } else {
                let mut msg = String::from_str("Unknown user marker: ");
                push_str(&mut msg, m.marker.as_str());
                Err(AccessError::Denied(msg))
            }
        },
    }
}

fn has_role_exec(claims: &JwtClaims, roles: &Vec<String>) -> (b: bool)
    ensures
        b == has_role(*claims, roles@),
{
    let mut i: usize = 0;
    while i < claims.roles.len()
        invariant
            i <= claims.roles.len(),
            forall|a: int, j: int|
                0 <= a < i && 0 <= j < roles@.len() ==> claims.roles@[a]@ != roles@[j]@,
        decreases claims.roles.len() - i,
    {
        let mut j: usize = 0;
        while j < roles.len()
            invariant
                i < claims.roles.len(),
                j <= roles.len(),
                forall|a: int, k: int|
                    0 <= a < i && 0 <= k < roles@.len() ==> claims.roles@[a]@ != roles@[k]@,
                forall|k: int| 0 <= k < j ==> claims.roles@[i as int]@ != roles@[k]@,
            decreases roles.len() - j,
        {
            if str_eq(claims.roles[i].as_str(), roles[j].as_str()) {
                return true;
            }
            j += 1;
        }
        i += 1;
    }
    false
}

fn roles_debug(roles: &Vec<String>) -> (r: String)
    ensures
        r@ == debug_list(roles@.map_values(|x: String| x@)),
{
    let ghost parts = roles@.map_values(|x: String| x@).map_values(|s: Seq<char>| str_debug(s));
    let mut r = String::from_str("[");
    let ghost head = r@;
    let mut i: usize = 0;
    while i < roles.len()
        invariant
            i <= roles.len(),
            parts == roles@.map_values(|x: String| x@).map_values(|s: Seq<char>| str_debug(s)),
            r@ == head + join(parts.take(i as int), ", "@),
        decreases roles.len() - i,
    {
        assert(parts.take(i + 1).drop_last() =~= parts.take(i as int));
        if i > 0 {
            push_str(&mut r, ", ");
        }
        let d = debug_quoted(roles[i].as_str());
        push_str(&mut r, d.as_str());
        i += 1;
    }
    assert(parts.take(roles.len() as int) =~= parts);
    push_str(&mut r, "]");
    r
}

proof fn lemma_all_step(rules: Seq<AccessRule>, claims: JwtClaims, i: int)
    requires
        0 <= i < rules.len(),
    ensures
        all_spec(rules.take(i + 1), claims) == match all_spec(rules.take(i), claims) {
            Err(e) => Err(e),
            Ok(acc) => match eval_spec(rules[i], claims) {
                Err(e) => Err(e),
                Ok(w) => Ok::<Seq<(Seq<char>, ParamView)>, Seq<char>>(acc + w),
            },
        },
{
    assert(rules.take(i + 1).subrange(0, i) =~= rules.take(i));
    assert(rules.take(i + 1)[i] == rules[i]);
}

proof fn lemma_any_step(rules: Seq<AccessRule>, claims: JwtClaims, i: int)
    requires
        0 <= i < rules.len(),
    ensures
        any_spec(rules.take(i + 1), claims) == match any_spec(rules.take(i), claims) {
            Ok(x) => Ok(x),
            Err(_) => eval_spec(rules[i], claims),
        },
{
    assert(rules.take(i + 1).subrange(0, i) =~= rules.take(i));
    assert(rules.take(i + 1)[i] == rules[i]);
}

fn allowed_without_conditions() -> (r: EvalResult)
    ensures
        r.allowed,
        conds_view(r.where_conditions@) == Seq::<(Seq<char>, ParamView)>::empty(),
{
    let r = EvalResult { allowed: true, where_conditions: Vec::new() };
    assert(conds_view(r.where_conditions@) =~= Seq::<(Seq<char>, ParamView)>::empty());
    r
}

/// Evaluates a rule against the claims: a refusal, or the conditions (column
/// and bind value) to push down into the query.
pub fn evaluate(rule: &AccessRule, claims: &JwtClaims) -> (r: Result<EvalResult, AccessError>)
    ensures
        outcome_of(r) == eval_spec(*rule, *claims),
        r matches Ok(res) ==> res.allowed,
    decreases rule,
{
    match rule {
        AccessRule::Public => Ok(allowed_without_conditions()),
        AccessRule::Authenticated => {
            if claims.sub.as_str().is_empty() {
                Err(AccessError::Denied(String::from_str("Not authenticated")))
            } else {
                Ok(allowed_without_conditions())
            }
        },
        AccessRule::Role { roles } => {
            if has_role_exec(claims, roles) {
                Ok(allowed_without_conditions())
            } else {
                let mut msg = String::from_str("Requires role: ");
                let d = roles_debug(roles);
                push_str(&mut msg, d.as_str());
                Err(AccessError::Denied(msg))
            }
        },
        AccessRule::Entitlement { entitlement } => {
            let mut msg = String::from_str("Entitlement check not implemented in POC: ");
            push_str(&mut msg, entitlement.as_str());
            Err(AccessError::Denied(msg))
        },
        AccessRule::Where { conditions } => {
            let mut resolved: Vec<(String, ParamValue)> = Vec::new();
            let mut i: usize = 0;
            assert(conditions@.take(0) =~= Seq::<(String, WhereValue)>::empty());
            assert(conds_view(resolved@) =~= Seq::<(Seq<char>, ParamView)>::empty());
            while i < conditions.len()
                invariant
                    i <= conditions.len(),
                    eval_spec(*rule, *claims) == where_spec(conditions@, *claims),
                    where_spec(conditions@.take(i as int), *claims) == Ok::<
                        Seq<(Seq<char>, ParamView)>,
                        Seq<char>,
                    >(conds_view(resolved@)),
                decreases conditions.len() - i,
            {
                assert(conditions@.take(i + 1).drop_last() =~= conditions@.take(i as int));
                let v = resolve_where_value(&conditions[i].1, claims);
                match v {
                    Ok(x) => {
                        let ghost before = resolved@;
                        resolved.push((conditions[i].0.clone(), x));
                        assert(conds_view(resolved@) =~= conds_view(before).push(
                            (conditions@[i as int].0@, resolved@.last().1@),
                        ));
                    },
                    Err(e) => {
                        proof {
                            lemma_where_prefix_err(conditions@, *claims, i as int + 1);
                        }
                        return Err(e);
                    },
                }
                i += 1;
            }
            assert(conditions@.take(conditions.len() as int) =~= conditions@);
            Ok(EvalResult { allowed: true, where_conditions: resolved })
        },
        AccessRule::All { rules } => {
            let mut all: Vec<(String, ParamValue)> = Vec::new();
            let mut i: usize = 0;
            assert(rules@.take(0) =~= Seq::<AccessRule>::empty());
            assert(conds_view(all@) =~= Seq::<(Seq<char>, ParamView)>::empty());
            while i < rules.len()
                invariant
                    i <= rules.len(),
                    *rule == (AccessRule::All { rules: *rules }),
                    eval_spec(*rule, *claims) == all_spec(rules@, *claims),
                    all_spec(rules@.take(i as int), *claims) == Ok::<
                        Seq<(Seq<char>, ParamView)>,
                        Seq<char>,
                    >(conds_view(all@)),
                decreases rules.len() - i,
            {
                proof {
                    lemma_all_step(rules@, *claims, i as int);
                }
                proof {
                    assert(decreases_to!(*rule => rules@[i as int]));
                }
                let sub = evaluate(&rules[i], claims);
                match sub {
                    Ok(res) => {
                        let mut w = res.where_conditions;
                        let ghost before = all@;
                        let ghost wv = w@;
                        all.append(&mut w);
                        assert(conds_view(all@) =~= conds_view(before) + conds_view(wv));
                    },
                    Err(e) => {
                        proof {
                            lemma_all_prefix_err(rules@, *claims, i as int + 1);
                        }
                        return Err(e);
                    },
                }
                i += 1;
            }
            assert(rules@.take(rules.len() as int) =~= rules@);
            Ok(EvalResult { allowed: true, where_conditions: all })
        },
        AccessRule::Any { rules } => {
            let mut last_error: Option<AccessError> = None;
            let mut i: usize = 0;
            assert(rules@.take(0) =~= Seq::<AccessRule>::empty());
            while i < rules.len()
                invariant
                    i <= rules.len(),
                    *rule == (AccessRule::Any { rules: *rules }),
                    eval_spec(*rule, *claims) == any_spec(rules@, *claims),
                    any_spec(rules@.take(i as int), *claims) == Err::<
                        Seq<(Seq<char>, ParamView)>,
                        Seq<char>,
                    >(
                        match last_error {
                            Some(e) => e.reason(),
                            None => "No rules matched"@,
                        },
                    ),
                decreases rules.len() - i,
            {
                proof {
                    lemma_any_step(rules@, *claims, i as int);
                }
                proof {
                    assert(decreases_to!(*rule => rules@[i as int]));
                }
                match evaluate(&rules[i], claims) {
                    Ok(res) => {
                        proof {
                            lemma_any_prefix_ok(rules@, *claims, i as int + 1);
                        }
                        return Ok(res);
                    },
                    Err(e) => {
                        last_error = Some(e);
                    },
                }
                i += 1;
            }
            assert(rules@.take(rules.len() as int) =~= rules@);
            match last_error {
                Some(e) => Err(e),
                None => Err(AccessError::Denied(String::from_str("No rules matched"))),
            }
        },
    }
}

/// Once a prefix of the conditions is refused, so is the whole.
proof fn lemma_where_prefix_err(conds: Seq<(String, WhereValue)>, claims: JwtClaims, n: int)
    requires
        0 <= n <= conds.len(),
        where_spec(conds.take(n), claims) is Err,
    ensures
        where_spec(conds, claims) == where_spec(conds.take(n), claims),
    decreases conds.len() - n,
{
    if n < conds.len() {
        assert(conds.take(n + 1).drop_last() =~= conds.take(n));
        lemma_where_prefix_err(conds, claims, n + 1);
    } else {
        assert(conds.take(n) =~= conds);
    }
}

/// Once a prefix of the rules is refused, so are all of them together.
proof fn lemma_all_prefix_err(rules: Seq<AccessRule>, claims: JwtClaims, n: int)
    requires
        0 <= n <= rules.len(),
        all_spec(rules.take(n), claims) is Err,
    ensures
        all_spec(rules, claims) == all_spec(rules.take(n), claims),
    decreases rules.len() - n,
{
    if n < rules.len() {
        lemma_all_step(rules, claims, n);
        lemma_all_prefix_err(rules, claims, n + 1);
    } else {
        assert(rules.take(n) =~= rules);
    }
}

/// Once a prefix of the rules has one that allows, it decides for all.
proof fn lemma_any_prefix_ok(rules: Seq<AccessRule>, claims: JwtClaims, n: int)
    requires
        0 <= n <= rules.len(),
        any_spec(rules.take(n), claims) is Ok,
    ensures
        any_spec(rules, claims) == any_spec(rules.take(n), claims),
    decreases rules.len() - n,
{
    if n < rules.len() {
        lemma_any_step(rules, claims, n);
        lemma_any_prefix_ok(rules, claims, n + 1);
    } else {
        assert(rules.take(n) =~= rules);
    }
}


/// `All` allows exactly when each of its rules allows.
pub proof fn law_all_allows_iff_each_allows(rules: Seq<AccessRule>, claims: JwtClaims)
    ensures
        all_spec(rules, claims) is Ok <==> forall|i: int| 0 <= i < rules.len() ==> #[trigger] eval_spec(rules[i], claims) is Ok,
    decreases rules.len(),
{
    if rules.len() > 0 {
        let prefix = rules.subrange(0, rules.len() - 1);
        law_all_allows_iff_each_allows(prefix, claims);
        assert forall|i: int| 0 <= i < prefix.len() implies prefix[i] == rules[i] by {}
        if (forall|i: int| 0 <= i < rules.len() ==> #[trigger] eval_spec(rules[i], claims) is Ok) {
            assert forall|i: int| 0 <= i < prefix.len() implies #[trigger] eval_spec(prefix[i], claims) is Ok by {
                assert(eval_spec(rules[i], claims) is Ok);
            }
            assert(eval_spec(rules[rules.len() - 1], claims) is Ok);
        }
        if all_spec(rules, claims) is Ok {
            assert forall|i: int| 0 <= i < rules.len() implies #[trigger] eval_spec(rules[i], claims) is Ok by {
                if i < rules.len() - 1 {
                    assert(eval_spec(prefix[i], claims) is Ok);
                }
            }
        }
    }
}

/// `Any` allows exactly when one of its rules allows.
pub proof fn law_any_allows_iff_some_allows(rules: Seq<AccessRule>, claims: JwtClaims)
    ensures
        any_spec(rules, claims) is Ok <==> exists|i: int| 0 <= i < rules.len() && #[trigger] eval_spec(rules[i], claims) is Ok,
    decreases rules.len(),
{
    if rules.len() > 0 {
        let prefix = rules.subrange(0, rules.len() - 1);
        law_any_allows_iff_some_allows(prefix, claims);
        if exists|i: int| 0 <= i < rules.len() && #[trigger] eval_spec(rules[i], claims) is Ok {
            let i = choose|i: int| 0 <= i < rules.len() && #[trigger] eval_spec(rules[i], claims) is Ok;
            if i < rules.len() - 1 {
                assert(prefix[i] == rules[i]);
                assert(eval_spec(prefix[i], claims) is Ok);
            }
        }
        if any_spec(prefix, claims) is Ok {
            let i = choose|i: int| 0 <= i < prefix.len() && #[trigger] eval_spec(prefix[i], claims) is Ok;
            assert(prefix[i] == rules[i]);
            assert(eval_spec(rules[i], claims) is Ok);
        }
        let last = rules.len() - 1;
        if eval_spec(rules[last], claims) is Ok {
            assert(any_spec(rules, claims) is Ok);
        }
    }
}


/// The conditions of `rules`, each rule's in turn, where each allows.
pub open spec fn conds_in_order(rules: Seq<AccessRule>, claims: JwtClaims) -> Seq<(Seq<char>, ParamView)>
    decreases rules.len(),
{
    if rules.len() == 0 {
        seq![]
    } else {
        conds_in_order(rules.drop_last(), claims) + match eval_spec(rules.last(), claims) {
            Ok(w) => w,
            Err(_) => seq![],
        }
    }
}

/// What `All` decides: where every rule allows, it allows with their
/// conditions put together in order; otherwise the first rule that refuses
/// refuses, with its reason.
pub proof fn law_all_outcome(rules: Seq<AccessRule>, claims: JwtClaims)
    ensures
        (forall|i: int| 0 <= i < rules.len() ==> #[trigger] eval_spec(rules[i], claims) is Ok) ==> all_spec(
            rules,
            claims,
        ) == Outcome::Ok(conds_in_order(rules, claims)),
        forall|k: int|
            0 <= k < rules.len() && #[trigger] eval_spec(rules[k], claims) is Err && (forall|i: int|
                0 <= i < k ==> #[trigger] eval_spec(rules[i], claims) is Ok) ==> all_spec(rules, claims) == eval_spec(
                rules[k],
                claims,
            ),
    decreases rules.len(),
{
    if rules.len() > 0 {
        let prefix = rules.subrange(0, rules.len() - 1);
        assert(prefix =~= rules.drop_last());
        law_all_outcome(prefix, claims);
        assert forall|i: int| 0 <= i < prefix.len() implies prefix[i] == rules[i] by {}
        let last = rules.len() - 1;
        assert(rules.last() == rules[last]);
        if forall|i: int| 0 <= i < rules.len() ==> #[trigger] eval_spec(rules[i], claims) is Ok {
            assert forall|i: int| 0 <= i < prefix.len() implies #[trigger] eval_spec(prefix[i], claims) is Ok by {
                assert(eval_spec(rules[i], claims) is Ok);
            }
            assert(eval_spec(rules[last], claims) is Ok);
        }
        assert forall|k: int|
            0 <= k < rules.len() && #[trigger] eval_spec(rules[k], claims) is Err && (forall|i: int|
                0 <= i < k ==> #[trigger] eval_spec(rules[i], claims) is Ok) implies all_spec(rules, claims)
            == eval_spec(rules[k], claims) by {
            if k < last {
                assert(eval_spec(prefix[k], claims) is Err);
                assert forall|i: int| 0 <= i < k implies #[trigger] eval_spec(prefix[i], claims) is Ok by {
                    assert(eval_spec(rules[i], claims) is Ok);
                }
            } else {
                assert forall|i: int| 0 <= i < prefix.len() implies #[trigger] eval_spec(prefix[i], claims) is Ok by {
                    assert(eval_spec(rules[i], claims) is Ok);
                }
            }
        }
    }
}

/// What `Any` decides: the first rule that allows decides; where none does,
/// the last rule's refusal refuses, and with no rules `No rules matched`.
pub proof fn law_any_outcome(rules: Seq<AccessRule>, claims: JwtClaims)
    ensures
        forall|k: int|
            0 <= k < rules.len() && #[trigger] eval_spec(rules[k], claims) is Ok && (forall|i: int|
                0 <= i < k ==> #[trigger] eval_spec(rules[i], claims) is Err) ==> any_spec(rules, claims) == eval_spec(
                rules[k],
                claims,
            ),
        (forall|i: int| 0 <= i < rules.len() ==> #[trigger] eval_spec(rules[i], claims) is Err) ==> any_spec(
            rules,
            claims,
        ) == if rules.len() == 0 {
            Outcome::Err("No rules matched"@)
        } else {
            eval_spec(rules[rules.len() - 1], claims)
        },
    decreases rules.len(),
{
    if rules.len() > 0 {
        let prefix = rules.subrange(0, rules.len() - 1);
        law_any_outcome(prefix, claims);
        assert forall|i: int| 0 <= i < prefix.len() implies prefix[i] == rules[i] by {}
        let last = rules.len() - 1;
        assert forall|k: int|
            0 <= k < rules.len() && #[trigger] eval_spec(rules[k], claims) is Ok && (forall|i: int|
                0 <= i < k ==> #[trigger] eval_spec(rules[i], claims) is Err) implies any_spec(rules, claims)
            == eval_spec(rules[k], claims) by {
            if k < last {
                assert(eval_spec(prefix[k], claims) is Ok);
                assert forall|i: int| 0 <= i < k implies #[trigger] eval_spec(prefix[i], claims) is Err by {
                    assert(eval_spec(rules[i], claims) is Err);
                }
            } else {
                assert forall|i: int| 0 <= i < prefix.len() implies #[trigger] eval_spec(prefix[i], claims) is Err by {
                    assert(eval_spec(rules[i], claims) is Err);
                }
            }
        }
        if forall|i: int| 0 <= i < rules.len() ==> #[trigger] eval_spec(rules[i], claims) is Err {
            assert forall|i: int| 0 <= i < prefix.len() implies #[trigger] eval_spec(prefix[i], claims) is Err by {
                assert(eval_spec(rules[i], claims) is Err);
            }
            if prefix.len() > 0 {
                assert(eval_spec(rules[prefix.len() - 1], claims) is Err);
            }
        }
    }
}

} // verus!
