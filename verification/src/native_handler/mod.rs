//! A native list handler for CRUD entities: the bearer token, the access
//! rules, the parameterized query and the response envelope.

pub mod access_rules;
pub mod jwt;
pub mod response;
pub mod sql_builder;

use vstd::prelude::*;
use access_rules::{evaluate, eval_spec, AccessError, AccessRule, UserMarker, WhereValue};
use jwt::JwtClaims;
use response::ColumnMap;
use sql_builder::{build_select, camel_to_snake_spec, select_sql, OrderDir, ParamValue, ParamView};
use crate::text::{chars_sub, str_chars, str_starts_with};

verus! {

/// What the list operation of an entity reads: its table and columns, the
/// rule that guards it and the mapping of its columns.
pub struct EntityConfig {
    pub table: String,
    pub columns: Vec<String>,
    pub access_rule: AccessRule,
    pub column_map: ColumnMap,
}

/// The query parameters of a list request.
pub struct ListParams {
    pub limit: u32,
    pub offset: u32,
    pub order_by: Option<String>,
    pub order_dir: OrderDir,
}

/// The token of an `Authorization` header: what follows `Bearer `, or the
/// whole header where it does not start so.
pub open spec fn bearer_token_spec(header: Seq<char>) -> Seq<char> {
    if "Bearer "@.is_prefix_of(header) {
        header.skip(7)
    } else {
        header
    }
}

/// The token of an `Authorization` header.
pub fn bearer_token(auth_header: &str) -> (t: String)
    ensures
        t@ == bearer_token_spec(auth_header@),
{
    let v = str_chars(auth_header);
    if str_starts_with(auth_header, "Bearer ") {
        proof {
            reveal_strlit("Bearer ");
        }
        let t = chars_sub(&v, 7, v.len());
        assert(t@ =~= auth_header@.skip(7));
        t
    } else {
        chars_sub_all(&v)
    }
}

fn chars_sub_all(v: &Vec<char>) -> (s: String)
    ensures
        s@ == v@,
{
    let s = chars_sub(v, 0, v.len());
    assert(v@.subrange(0, v@.len() as int) =~= v@);
    s
}

/// The query of a list request whose rule allowed it with the conditions
/// `conds`.
pub open spec fn list_query_sql(config: EntityConfig, params: ListParams, conds: Seq<(Seq<char>, ParamView)>) -> Seq<char> {
    select_sql(
        config.table@,
        config.columns@.map_values(|c: String| c@),
        conds.map_values(|w: (Seq<char>, ParamView)| w.0),
        match params.order_by {
            Some(o) => Some(o@),
            None => None,
        },
        params.order_dir,
    )
}

/// Evaluates the entity's rule against the claims and, where it allows,
/// builds the list query and its bind values: the conditions' values, the
/// limit and the offset.
pub fn plan_list_query(config: &EntityConfig, claims: &JwtClaims, params: &ListParams) -> (r: Result<(String, Vec<ParamValue>), AccessError>)
    ensures
        match eval_spec(config.access_rule, *claims) {
            Err(reason) => r matches Err(e) && e.reason() == reason,
            Ok(conds) => r matches Ok(q) && q.0@ == list_query_sql(*config, *params, conds)
                && q.1@.map_values(|p: ParamValue| p@) == conds.map_values(
                |w: (Seq<char>, ParamView)| w.1,
            ).push(ParamView::Int(params.limit as int)).push(ParamView::Int(params.offset as int)),
        },
{
    let eval_result = match evaluate(&config.access_rule, claims) {
        Ok(res) => res,
        Err(e) => {
            return Err(e);
        },
    };
    let ghost conds = eval_result.where_conditions@;
    let mut col_refs: Vec<&str> = Vec::new();
    let mut i: usize = 0;
    while i < config.columns.len()
        invariant
            i <= config.columns.len(),
            col_refs@.map_values(|c: &str| c@) =~= config.columns@.take(i as int).map_values(
                |c: String| c@,
            ),
        decreases config.columns.len() - i,
    {
        let ghost before = col_refs@.map_values(|c: &str| c@);
        col_refs.push(config.columns[i].as_str());
        assert(col_refs@.map_values(|c: &str| c@) =~= before.push(config.columns@[i as int]@));
        assert(config.columns@.take(i + 1) =~= config.columns@.take(i as int).push(
            config.columns@[i as int],
        ));
        i += 1;
    }
    assert(config.columns@.take(config.columns.len() as int) =~= config.columns@);
    let order_by: Option<&str> = match &params.order_by {
        Some(o) => Some(o.as_str()),
        None => None,
    };
    let (sql, bind) = build_select(
        config.table.as_str(),
        col_refs.as_slice(),
        eval_result.where_conditions.as_slice(),
        order_by,
        params.order_dir,
        params.limit,
        params.offset,
    );
    proof {
        let cv = access_rules::conds_view(conds);
        assert(conds.map_values(|w: (String, ParamValue)| w.0@) =~= cv.map_values(
            |w: (Seq<char>, ParamView)| w.0,
        ));
        assert(conds.map_values(|w: (String, ParamValue)| w.1@) =~= cv.map_values(
            |w: (Seq<char>, ParamView)| w.1,
        ));
    }
    Ok((sql, bind))
}

/// The columns of the task entity.
pub open spec fn task_columns() -> Seq<Seq<char>> {
    seq!["id"@, "title"@, "description"@, "status"@, "userId"@, "createdAt"@, "updatedAt"@]
}

/// The task entity of the benchmarks: table `tasks`, its seven columns, and
/// the rule "authenticated, and only the user's own rows".
pub fn task_entity_config() -> (c: EntityConfig)
    ensures
        c.table@ == "tasks"@,
        c.columns@.map_values(|s: String| s@) == task_columns(),
        c.column_map.entries@.len() == 7,
        forall|i: int|
            0 <= i < 7 ==> {
                &&& (#[trigger] c.column_map.entries@[i]).0@ == camel_to_snake_spec(task_columns()[i])
                &&& c.column_map.entries@[i].1@ == task_columns()[i]
                &&& c.column_map.entries@[i].2 == i
            },
        forall|claims: JwtClaims|
            #[trigger] eval_spec(c.access_rule, claims) == if claims.sub@.len() == 0 {
                Err::<Seq<(Seq<char>, ParamView)>, Seq<char>>("Not authenticated"@)
            } else {
                Ok(seq![("userId"@, ParamView::Text(claims.sub@))])
            },
{
    let columns: Vec<String> = vec![
        String::from_str("id"),
        String::from_str("title"),
        String::from_str("description"),
        String::from_str("status"),
        String::from_str("userId"),
        String::from_str("createdAt"),
        String::from_str("updatedAt"),
    ];
    let names: Vec<&str> = vec!["id", "title", "description", "status", "userId", "createdAt", "updatedAt"];
    let column_map = ColumnMap::from_camel_names(names.as_slice());
    let conditions: Vec<(String, WhereValue)> = vec![
        (String::from_str("userId"), WhereValue::Marker(UserMarker { marker: String::from_str("user.id") })),
    ];
    let rules: Vec<AccessRule> = vec![AccessRule::Authenticated, AccessRule::Where { conditions }];
    let c = EntityConfig { table: String::from_str("tasks"), columns, access_rule: AccessRule::All { rules }, column_map };
    proof {
        assert(c.columns@.map_values(|s: String| s@) =~= task_columns());
        assert(names@.map_values(|s: &str| s@) =~= task_columns());
        assert forall|claims: JwtClaims|
            #[trigger] eval_spec(c.access_rule, claims) == if claims.sub@.len() == 0 {
                Err::<Seq<(Seq<char>, ParamView)>, Seq<char>>("Not authenticated"@)
            } else {
                Ok(seq![("userId"@, ParamView::Text(claims.sub@))])
            } by {
            lemma_task_rule(c.access_rule, claims);
        }
    }
    c
}

proof fn lemma_task_rule(rule: AccessRule, claims: JwtClaims)
    requires
        rule is All,
        rule->All_rules@.len() == 2,
        rule->All_rules@[0] is Authenticated,
        rule->All_rules@[1] is Where,
        rule->All_rules@[1]->Where_conditions@.len() == 1,
        rule->All_rules@[1]->Where_conditions@[0].0@ == "userId"@,
        rule->All_rules@[1]->Where_conditions@[0].1 is Marker,
        rule->All_rules@[1]->Where_conditions@[0].1->Marker_0.marker@ == "user.id"@,
    ensures
        eval_spec(rule, claims) == if claims.sub@.len() == 0 {
            Err::<Seq<(Seq<char>, ParamView)>, Seq<char>>("Not authenticated"@)
        } else {
            Ok(seq![("userId"@, ParamView::Text(claims.sub@))])
        },
{
    let rules = rule->All_rules@;
    let conditions = rules[1]->Where_conditions@;
    let one = rules.subrange(0, 1);
    assert(one.subrange(0, 0) =~= Seq::<AccessRule>::empty());
    assert(one[0] == rules[0]);
    assert(rules.subrange(0, 1) == one);
    let first = access_rules::all_spec(one, claims);
    assert(eval_spec(rules[0], claims) == if claims.sub@.len() == 0 {
        Err::<Seq<(Seq<char>, ParamView)>, Seq<char>>("Not authenticated"@)
    } else {
        Ok(seq![])
    });
    assert(one.len() == 1);
    assert(access_rules::all_spec(one.subrange(0, 0), claims) == Ok::<Seq<(Seq<char>, ParamView)>, Seq<char>>(seq![]));
    assert(Seq::<(Seq<char>, ParamView)>::empty() + Seq::<(Seq<char>, ParamView)>::empty() =~= Seq::<(Seq<char>, ParamView)>::empty());
    assert(first == if claims.sub@.len() == 0 {
        Err::<Seq<(Seq<char>, ParamView)>, Seq<char>>("Not authenticated"@)
    } else {
        Ok(seq![])
    });
    assert(conditions.drop_last() =~= Seq::<(String, WhereValue)>::empty());
    assert(access_rules::where_spec(conditions.drop_last(), claims) == Ok::<Seq<(Seq<char>, ParamView)>, Seq<char>>(seq![]));
    assert(conditions.last() == conditions[0]);
    assert(access_rules::resolve_spec(conditions[0].1, claims) == Ok::<ParamView, Seq<char>>(ParamView::Text(claims.sub@)));
    let w = access_rules::where_spec(conditions, claims);
    assert(w == Ok::<Seq<(Seq<char>, ParamView)>, Seq<char>>(
        Seq::<(Seq<char>, ParamView)>::empty().push(("userId"@, ParamView::Text(claims.sub@))),
    ));
    assert(Seq::<(Seq<char>, ParamView)>::empty().push(("userId"@, ParamView::Text(claims.sub@)))
        =~= seq![("userId"@, ParamView::Text(claims.sub@))]);
    assert(eval_spec(rules[1], claims) == w);
    assert(Seq::<(Seq<char>, ParamView)>::empty() + seq![("userId"@, ParamView::Text(claims.sub@))]
        =~= seq![("userId"@, ParamView::Text(claims.sub@))]);
    assert(eval_spec(rule, claims) == access_rules::all_spec(rules, claims));
}

} // verus!
