//! Parameterized SQL for list queries, with column names converted between
//! camelCase (JSON) and snake_case (SQL).

use vstd::prelude::*;
use crate::text::{dec, join, push_dec, push_str, char_is_uppercase, char_lower_first, char_upper_first, push_char, str_chars, unicode_lower_first, unicode_upper, unicode_upper_first};

verus! {

/// Whether `char::is_uppercase` holds: `'A'..='Z'` on ASCII, the Unicode
/// `Uppercase` property elsewhere.
pub open spec fn is_upper(c: char) -> bool {
    if (c as u32) < 0x80 {
        'A' <= c && c <= 'Z'
    } else {
        unicode_upper(c as u32)
    }
}

/// The first char of `char::to_lowercase`.
pub open spec fn lower_of(c: char) -> char {
    if (c as u32) < 0x80 {
        if 'A' <= c && c <= 'Z' {
            ((c as u32) + 32) as char
        } else {
            c
        }
    } else {
        unicode_lower_first(c as u32)
    }
}

/// The first char of `char::to_uppercase`.
pub open spec fn upper_of(c: char) -> char {
    if (c as u32) < 0x80 {
        if 'a' <= c && c <= 'z' {
            ((c as u32) - 32) as char
        } else {
            c
        }
    } else {
        unicode_upper_first(c as u32)
    }
}

/// camelCase → snake_case: every uppercase char becomes its lowercase form,
/// preceded by `_` unless it is the first char.
pub open spec fn camel_to_snake_spec(s: Seq<char>) -> Seq<char>
    decreases s.len(),
{
    if s.len() == 0 {
        seq![]
    } else {
        let c = s.last();
        let pre = camel_to_snake_spec(s.drop_last());
        if is_upper(c) {
            if s.len() > 1 {
                pre.push('_').push(lower_of(c))
            } else {
                pre.push(lower_of(c))
            }
        } else {
            pre.push(c)
        }
    }
}

/// snake_case → camelCase, with the pending "capitalize next" flag:
/// every `_` is dropped and the char after it is uppercased.
pub open spec fn snake_to_camel_state(s: Seq<char>) -> (Seq<char>, bool)
    decreases s.len(),
{
    if s.len() == 0 {
        (seq![], false)
    } else {
        let c = s.last();
        let (pre, cap) = snake_to_camel_state(s.drop_last());
        if c == '_' {
            (pre, true)
        } else if cap {
            (pre.push(upper_of(c)), false)
        } else {
            (pre.push(c), false)
        }
    }
}

/// snake_case → camelCase.
pub open spec fn snake_to_camel_spec(s: Seq<char>) -> Seq<char> {
    snake_to_camel_state(s).0
}

/// An ASCII camelCase identifier: ASCII chars only, no `_`, and not starting
/// with an uppercase letter.
pub open spec fn ascii_camel_ident(s: Seq<char>) -> bool {
    &&& forall|i: int| 0 <= i < s.len() ==> (s[i] as u32) < 0x80 && s[i] != '_'
    &&& s.len() > 0 ==> !is_upper(s[0])
}

/// Converting an ASCII camelCase identifier to snake_case and back gives the
/// identifier again: `snake_to_camel(camel_to_snake(s)) == s`.
pub proof fn law_snake_camel_roundtrip(s: Seq<char>)
    requires
        ascii_camel_ident(s),
    ensures
        snake_to_camel_spec(camel_to_snake_spec(s)) == s,
{
    lemma_roundtrip_state(s);
}

proof fn lemma_roundtrip_state(s: Seq<char>)
    requires
        ascii_camel_ident(s),
    ensures
        snake_to_camel_state(camel_to_snake_spec(s)) == (s, false),
    decreases s.len(),
{
    if s.len() > 0 {
        let p = s.drop_last();
        let c = s.last();
        assert(ascii_camel_ident(p)) by {
            if p.len() > 0 {
                assert(p[0] == s[0]);
            }
        }
        lemma_roundtrip_state(p);
        let cp = camel_to_snake_spec(p);
        assert(c != '_');
        if is_upper(c) {
            assert(s.len() > 1);
            let l = lower_of(c);
            assert(cp.push('_').drop_last() =~= cp);
            assert(snake_to_camel_state(cp.push('_')) == (p, true));
            assert(cp.push('_').push(l).drop_last() =~= cp.push('_'));
            assert(l != '_');
            assert(upper_of(l) == c) by {
                assert((l as u32) == (c as u32) + 32);
            }
            assert(p.push(c) =~= s);
        } else {
            assert(cp.push(c).drop_last() =~= cp);
            assert(p.push(c) =~= s);
        }
    } else {
        assert(camel_to_snake_spec(s) =~= seq![]);
        assert(s =~= seq![]);
    }
}

/// A lowercase ASCII letter.
pub open spec fn ascii_lower(c: char) -> bool {
    'a' <= c && c <= 'z'
}

/// An ASCII snake_case identifier (`[a-z][a-z0-9]*(_[a-z][a-z0-9]*)*`):
/// lowercase letters, digits and `_`, starting with a letter, and every `_`
/// followed by a letter.
pub open spec fn ascii_snake_ident(t: Seq<char>) -> bool {
    &&& forall|i: int| 0 <= i < t.len() ==> ascii_lower(#[trigger] t[i]) || ('0' <= t[i] && t[i] <= '9') || t[i] == '_'
    &&& t.len() > 0 ==> ascii_lower(t[0])
    &&& forall|i: int| 0 <= i < t.len() && #[trigger] t[i] == '_' ==> i + 1 < t.len() && ascii_lower(t[i + 1])
}

proof fn lemma_snake_prefix(t: Seq<char>, n: nat)
    requires
        ascii_snake_ident(t),
        n <= t.len(),
    ensures
        ({
            let (pre, cap) = snake_to_camel_state(t.take(n as int));
            &&& cap == (n > 0 && t[n - 1] == '_')
            &&& camel_to_snake_spec(pre) == (if cap { t.take(n - 1) } else { t.take(n as int) })
            &&& n > 0 ==> pre.len() > 0
        }),
    decreases n,
{
    if n > 0 {
        let m = (n - 1) as nat;
        lemma_snake_prefix(t, m);
        let tn = t.take(n as int);
        assert(tn.drop_last() =~= t.take(m as int));
        assert(tn.last() == t[m as int]);
        let (pre, cap) = snake_to_camel_state(t.take(m as int));
        let c = t[m as int];
        if c == '_' {
            if m > 0 && t[m - 1] == '_' {
                assert(ascii_lower(t[m as int]));
            }
            assert(m > 0);
        } else if cap {
            assert(ascii_lower(c));
            let u = upper_of(c);
            assert((u as u32) == (c as u32) - 32);
            assert(is_upper(u));
            assert(lower_of(u) == c);
            assert(pre.push(u).drop_last() =~= pre);
            assert(t.take(m - 1).push('_').push(c) =~= tn) by {
                assert(t[m - 1] == '_');
            }
        } else {
            assert(!is_upper(c));
            assert(pre.push(c).drop_last() =~= pre);
            assert(t.take(m as int).push(c) =~= tn);
            if m == 0 {
                assert(pre =~= Seq::<char>::empty());
            }
        }
    } else {
        assert(t.take(0) =~= Seq::<char>::empty());
    }
}

/// Converting an ASCII snake_case identifier to camelCase and back gives the
/// identifier again: `camel_to_snake(snake_to_camel(t)) == t`.
pub proof fn law_camel_snake_roundtrip(t: Seq<char>)
    requires
        ascii_snake_ident(t),
    ensures
        camel_to_snake_spec(snake_to_camel_spec(t)) == t,
{
    lemma_snake_prefix(t, t.len());
    assert(t.take(t.len() as int) =~= t);
    if t.len() > 0 && t[t.len() - 1] == '_' {
        assert(t.len() - 1 + 1 < t.len());
    }
}

fn is_upper_exec(c: char) -> (b: bool)
    ensures
        b == is_upper(c),
{
    char_is_uppercase(c)
}

fn lower_exec(c: char) -> (r: char)
    ensures
        r == lower_of(c),
{
    let r = char_lower_first(c);
    proof {
        if (c as u32) < 0x80 {
            assert(r as u32 == lower_of(c) as u32);
        }
    }
    r
}

fn upper_exec(c: char) -> (r: char)
    ensures
        r == upper_of(c),
{
    let r = char_upper_first(c);
    proof {
        if (c as u32) < 0x80 {
            assert(r as u32 == upper_of(c) as u32);
        }
    }
    r
}

/// Convert camelCase to snake_case.
pub fn camel_to_snake(s: &str) -> (r: String)
    ensures
        r@ == camel_to_snake_spec(s@),
{
    let v = str_chars(s);
    let mut result = String::new();
    let mut i: usize = 0;
    while i < v.len()
        invariant
            i <= v.len(),
            v@ == s@,
            result@ == camel_to_snake_spec(v@.take(i as int)),
        decreases v.len() - i,
    {
        let c = v[i];
        assert(v@.take(i + 1).drop_last() =~= v@.take(i as int));
        if is_upper_exec(c) {
            if i > 0 {
                push_char(&mut result, '_');
            }
            push_char(&mut result, lower_exec(c));
        } else {
            push_char(&mut result, c);
        }
        i += 1;
    }
    assert(v@.take(v.len() as int) =~= v@);
    result
}

/// Convert snake_case to camelCase.
pub fn snake_to_camel(s: &str) -> (r: String)
    ensures
        r@ == snake_to_camel_spec(s@),
{
    let v = str_chars(s);
    let mut result = String::new();
    let mut capitalize_next = false;
    let mut i: usize = 0;
    while i < v.len()
        invariant
            i <= v.len(),
            v@ == s@,
            (result@, capitalize_next) == snake_to_camel_state(v@.take(i as int)),
        decreases v.len() - i,
    {
        let c = v[i];
        assert(v@.take(i + 1).drop_last() =~= v@.take(i as int));
        if c == '_' {
            capitalize_next = true;
        } else if capitalize_next {
            push_char(&mut result, upper_exec(c));
            capitalize_next = false;
        } else {
            push_char(&mut result, c);
        }
        i += 1;
    }
    assert(v@.take(v.len() as int) =~= v@);
    result
}

/// Sort direction of an `ORDER BY` clause.
#[derive(Debug, Clone, Copy, PartialEq, Eq, Structural)]
pub enum OrderDir {
    Asc,
    Desc,
}


/// A bind value of a query. `Json` holds any other JSON value (a fraction,
/// an array, an object) as its JSON text.
#[derive(Debug, PartialEq)]
pub enum ParamValue {
    Null,
    Bool(bool),
    Int(i64),
    Text(String),
    Json(String),
}

/// What a bind value is, with its text as chars.
pub enum ParamView {
    Null,
    Bool(bool),
    Int(int),
    Text(Seq<char>),
    Json(Seq<char>),
}

impl View for ParamValue {
    type V = ParamView;

    open spec fn view(&self) -> ParamView {
        match self {
            ParamValue::Null => ParamView::Null,
            ParamValue::Bool(b) => ParamView::Bool(*b),
            ParamValue::Int(n) => ParamView::Int(*n as int),
            ParamValue::Text(t) => ParamView::Text(t@),
            ParamValue::Json(t) => ParamView::Json(t@),
        }
    }
}

impl ParamValue {
    /// A copy of the value.
    pub fn copy(&self) -> (r: ParamValue)
        ensures
            r@ == self@,
    {
        match self {
            ParamValue::Null => ParamValue::Null,
            ParamValue::Bool(b) => ParamValue::Bool(*b),
            ParamValue::Int(n) => ParamValue::Int(*n),
            ParamValue::Text(t) => ParamValue::Text(t.clone()),
            ParamValue::Json(t) => ParamValue::Json(t.clone()),
        }
    }
}

/// `"name"`.
pub open spec fn sql_quote(name: Seq<char>) -> Seq<char> {
    seq!['"'] + name + seq!['"']
}

/// A selected column: `"snake"`, with ` AS "camel"` when the names differ.
pub open spec fn column_sql(c: Seq<char>) -> Seq<char> {
    let snake = camel_to_snake_spec(c);
    if snake == c {
        sql_quote(c)
    } else {
        sql_quote(snake) + " AS "@ + sql_quote(c)
    }
}

/// The `i`-th (0-based) condition: `"snake_field" = ?<i+1>`.
pub open spec fn condition_sql(field: Seq<char>, i: nat) -> Seq<char> {
    sql_quote(camel_to_snake_spec(field)) + " = ?"@ + dec(i + 1)
}

pub open spec fn where_sql(fields: Seq<Seq<char>>) -> Seq<char> {
    if fields.len() == 0 {
        seq![]
    } else {
        " WHERE "@ + join(
            Seq::new(fields.len(), |i: int| condition_sql(fields[i], i as nat)),
            " AND "@,
        )
    }
}

pub open spec fn order_sql(order_by: Option<Seq<char>>, dir: OrderDir) -> Seq<char> {
    match order_by {
        Some(c) => " ORDER BY "@ + sql_quote(camel_to_snake_spec(c)) + (match dir {
            OrderDir::Asc => " ASC"@,
            OrderDir::Desc => " DESC"@,
        }),
        None => seq![],
    }
}

/// The whole query: selected columns, table, conditions (as numbered
/// parameters), order, and `LIMIT`/`OFFSET` as the two last parameters.
pub open spec fn select_sql(
    table: Seq<char>,
    columns: Seq<Seq<char>>,
    fields: Seq<Seq<char>>,
    order_by: Option<Seq<char>>,
    dir: OrderDir,
) -> Seq<char> {
    "SELECT "@ + join(columns.map_values(|c: Seq<char>| column_sql(c)), ", "@) + " FROM "@
        + sql_quote(table) + where_sql(fields) + order_sql(order_by, dir) + " LIMIT ?"@ + dec(
        fields.len() + 1,
    ) + " OFFSET ?"@ + dec(fields.len() + 2)
}

pub open spec fn opt_view(o: Option<&str>) -> Option<Seq<char>> {
    match o {
        Some(s) => Some(s@),
        None => None,
    }
}

fn push_quoted(s: &mut String, name: &str)
    ensures
        final(s)@ == old(s)@ + sql_quote(name@),
{
    push_char(s, '"');
    push_str(s, name);
    push_char(s, '"');
}

proof fn lemma_join_step(parts: Seq<Seq<char>>, sep: Seq<char>, i: int)
    requires
        0 <= i < parts.len(),
    ensures
        join(parts.take(i + 1), sep) == if i == 0 {
            parts[0]
        } else {
            join(parts.take(i), sep) + sep + parts[i]
        },
{
    assert(parts.take(i + 1).drop_last() =~= parts.take(i));
}

/// Builds the parameterized `SELECT` of a list query and its bind values:
/// the condition values in order, then the limit and the offset.
pub fn build_select(
    table: &str,
    columns: &[&str],
    where_conditions: &[(String, ParamValue)],
    order_by: Option<&str>,
    order_dir: OrderDir,
    limit: u32,
    offset: u32,
) -> (r: (String, Vec<ParamValue>))
    ensures
        r.0@ == select_sql(
            table@,
            columns@.map_values(|c: &str| c@),
            where_conditions@.map_values(|w: (String, ParamValue)| w.0@),
            opt_view(order_by),
            order_dir,
        ),
        r.1@.map_values(|p: ParamValue| p@) == where_conditions@.map_values(
            |w: (String, ParamValue)| w.1@,
        ).push(ParamView::Int(limit as int)).push(ParamView::Int(offset as int)),
{
    let ghost cols = columns@.map_values(|c: &str| c@);
    let ghost fields = where_conditions@.map_values(|w: (String, ParamValue)| w.0@);
    let ghost col_parts = cols.map_values(|c: Seq<char>| column_sql(c));
    let mut sql = String::from_str("SELECT ");
    let ghost head = sql@;
    let mut i: usize = 0;
    assert(col_parts.take(0) =~= Seq::<Seq<char>>::empty());
    while i < columns.len()
        invariant
            i <= columns.len(),
            cols == columns@.map_values(|c: &str| c@),
            col_parts == cols.map_values(|c: Seq<char>| column_sql(c)),
            sql@ == head + join(col_parts.take(i as int), ", "@),
        decreases columns.len() - i,
    {
        proof {
            lemma_join_step(col_parts, ", "@, i as int);
        }
        if i > 0 {
            push_str(&mut sql, ", ");
        }
        let col = columns[i];
        let snake = camel_to_snake(col);
        if str_eq_owned(&snake, col) {
            push_quoted(&mut sql, col);
        } else {
            push_quoted(&mut sql, snake.as_str());
            push_str(&mut sql, " AS ");
            push_quoted(&mut sql, col);
        }
        i += 1;
    }
    assert(col_parts.take(columns.len() as int) =~= col_parts);
    push_str(&mut sql, " FROM ");
    push_quoted(&mut sql, table);
    let ghost before_where = sql@;
    let mut params: Vec<ParamValue> = Vec::new();
    let ghost cond_parts = Seq::new(fields.len(), |k: int| condition_sql(fields[k], k as nat));
    if where_conditions.len() > 0 {
        push_str(&mut sql, " WHERE ");
        let ghost wh = sql@;
        let mut j: usize = 0;
        while j < where_conditions.len()
            invariant
                j <= where_conditions.len(),
                fields == where_conditions@.map_values(|w: (String, ParamValue)| w.0@),
                cond_parts == Seq::new(fields.len(), |k: int| condition_sql(fields[k], k as nat)),
                sql@ == wh + join(cond_parts.take(j as int), " AND "@),
                params@.map_values(|p: ParamValue| p@) == where_conditions@.take(j as int).map_values(
                    |w: (String, ParamValue)| w.1@,
                ),
            decreases where_conditions.len() - j,
        {
            proof {
                lemma_join_step(cond_parts, " AND "@, j as int);
            }
            if j > 0 {
                push_str(&mut sql, " AND ");
            }
            let field = &where_conditions[j].0;
            let snake = camel_to_snake(field.as_str());
            push_quoted(&mut sql, snake.as_str());
            push_str(&mut sql, " = ?");
            push_dec(&mut sql, (j + 1) as u64);
            let ghost pb = params@.map_values(|p: ParamValue| p@);
            params.push(where_conditions[j].1.copy());
            assert(params@.map_values(|p: ParamValue| p@) =~= pb.push(where_conditions@[j as int].1@));
            assert(where_conditions@.take(j + 1) =~= where_conditions@.take(j as int).push(
                where_conditions@[j as int],
            ));
            j += 1;
        }
        assert(cond_parts.take(where_conditions.len() as int) =~= cond_parts);
        assert(sql@ == before_where + where_sql(fields));
    } else {
        assert(sql@ == before_where + where_sql(fields));
    }
    assert(where_conditions@.take(where_conditions.len() as int) =~= where_conditions@);
    assert(params@.map_values(|p: ParamValue| p@) == where_conditions@.map_values(
        |w: (String, ParamValue)| w.1@,
    ));
    let ghost before_order = sql@;
    match order_by {
        Some(c) => {
            push_str(&mut sql, " ORDER BY ");
            let snake = camel_to_snake(c);
            push_quoted(&mut sql, snake.as_str());
            match order_dir {
                OrderDir::Asc => push_str(&mut sql, " ASC"),
                OrderDir::Desc => push_str(&mut sql, " DESC"),
            }
        },
        None => {},
    }
    assert(sql@ == before_order + order_sql(opt_view(order_by), order_dir));
    let ghost pa = params@.map_values(|p: ParamValue| p@);
    params.push(ParamValue::Int(limit as i64));
    push_str(&mut sql, " LIMIT ?");
    push_dec(&mut sql, params.len() as u64);
    let ghost pb = params@.map_values(|p: ParamValue| p@);
    assert(pb =~= pa.push(ParamView::Int(limit as int)));
    params.push(ParamValue::Int(offset as i64));
    push_str(&mut sql, " OFFSET ?");
    push_dec(&mut sql, params.len() as u64);
    assert(params@.map_values(|p: ParamValue| p@) =~= pb.push(ParamView::Int(offset as int)));
    (sql, params)
}

fn str_eq_owned(a: &String, b: &str) -> (r: bool)
    ensures
        r == (a@ == b@),
{
    crate::text::str_eq(a.as_str(), b)
}

} // verus!
