use vtz::native_handler::response::ColumnMap;
use vtz::native_handler::sql_builder::{camel_to_snake, snake_to_camel};

#[test]
fn camel_to_snake_conversion() {
    assert_eq!(camel_to_snake("userId"), "user_id");
    assert_eq!(camel_to_snake("createdAt"), "created_at");
    assert_eq!(camel_to_snake("id"), "id");
    assert_eq!(camel_to_snake("tenantId"), "tenant_id");
}

#[test]
fn snake_to_camel_conversion() {
    assert_eq!(snake_to_camel("user_id"), "userId");
    assert_eq!(snake_to_camel("created_at"), "createdAt");
    assert_eq!(snake_to_camel("id"), "id");
}

#[test]
fn column_map_from_camel_names() {
    let map = ColumnMap::from_camel_names(&["id", "userId", "createdAt"]);
    assert_eq!(map.entries.len(), 3);
    assert_eq!(map.entries[0], ("id".to_string(), "id".to_string(), 0));
    assert_eq!(map.entries[1], ("user_id".to_string(), "userId".to_string(), 1));
    assert_eq!(map.entries[2], ("created_at".to_string(), "createdAt".to_string(), 2));
}

#[test]
fn snake_camel_roundtrip_on_identifiers() {
    for name in ["userId", "createdAt", "id", "tenantIdValue", "a"] {
        assert_eq!(snake_to_camel(&camel_to_snake(name)), name);
    }
}

use vtz::native_handler::access_rules::{evaluate, AccessError, AccessRule, UserMarker, WhereValue};
use vtz::native_handler::jwt::{check_expiry, create_hs256, verify_signature, JwtClaims, JwtError};
use vtz::native_handler::response::build_list_response;
use vtz::native_handler::sql_builder::{build_select, OrderDir, ParamValue};
use vtz::native_handler::{bearer_token, plan_list_query, task_entity_config, ListParams};
use base64::Engine;
use std::time::{SystemTime, UNIX_EPOCH};

const SECRET: &[u8] = b"test-secret-key-for-benchmarks!!";

fn now() -> u64 {
    SystemTime::now().duration_since(UNIX_EPOCH).unwrap().as_secs()
}

fn rule_claims() -> JwtClaims {
    JwtClaims {
        sub: "user-042".to_string(),
        tenant_id: Some("tenant-001".to_string()),
        roles: vec!["user".to_string()],
        exp: 0,
        iat: 0,
    }
}

fn token_claims() -> JwtClaims {
    JwtClaims {
        sub: "user-042".to_string(),
        tenant_id: Some("tenant-001".to_string()),
        roles: vec!["user".to_string()],
        exp: now() + 3600,
        iat: now(),
    }
}

/// The whole token check: signature, payload claims, expiry.
fn verify(token: &str, secret: &[u8]) -> Result<JwtClaims, JwtError> {
    let payload = verify_signature(token, secret)?;
    let v: serde_json::Value = serde_json::from_slice(&payload)
        .map_err(|e| JwtError::InvalidPayload(e.to_string()))?;
    let claims = JwtClaims {
        sub: v["sub"].as_str().unwrap_or_default().to_string(),
        tenant_id: v["tenant_id"].as_str().map(|s| s.to_string()),
        roles: v["roles"]
            .as_array()
            .map(|a| a.iter().filter_map(|r| r.as_str().map(|s| s.to_string())).collect())
            .unwrap_or_default(),
        exp: v["exp"].as_u64().unwrap_or(0),
        iat: v["iat"].as_u64().unwrap_or(0),
    };
    check_expiry(claims, now())
}

fn user_id_where() -> AccessRule {
    AccessRule::Where {
        conditions: vec![(
            "userId".to_string(),
            WhereValue::Marker(UserMarker { marker: "user.id".to_string() }),
        )],
    }
}

#[test]
fn public_always_allows() {
    let result = evaluate(&AccessRule::Public, &rule_claims());
    assert!(result.is_ok());
    assert!(result.unwrap().allowed);
}

#[test]
fn authenticated_checks_sub() {
    let result = evaluate(&AccessRule::Authenticated, &rule_claims());
    assert!(result.is_ok());

    let mut empty_claims = rule_claims();
    empty_claims.sub = String::new();
    let result = evaluate(&AccessRule::Authenticated, &empty_claims);
    assert!(result.is_err());
    assert_eq!(result.unwrap_err().to_string(), "Access denied: Not authenticated");
}

#[test]
fn where_resolves_user_marker() {
    let result = evaluate(&user_id_where(), &rule_claims()).unwrap();
    assert_eq!(result.where_conditions.len(), 1);
    assert_eq!(result.where_conditions[0].0, "userId");
    assert_eq!(result.where_conditions[0].1, ParamValue::Text("user-042".to_string()));
}

#[test]
fn where_resolves_tenant_and_literal() {
    let rule = AccessRule::Where {
        conditions: vec![
            (
                "tenantId".to_string(),
                WhereValue::Marker(UserMarker { marker: "user.tenantId".to_string() }),
            ),
            ("status".to_string(), WhereValue::Literal(ParamValue::Text("done".to_string()))),
        ],
    };
    let result = evaluate(&rule, &rule_claims()).unwrap();
    assert_eq!(result.where_conditions[0].1, ParamValue::Text("tenant-001".to_string()));
    assert_eq!(result.where_conditions[1].1, ParamValue::Text("done".to_string()));

    let mut no_tenant = rule_claims();
    no_tenant.tenant_id = None;
    let result = evaluate(&rule, &no_tenant).unwrap();
    assert_eq!(result.where_conditions[0].1, ParamValue::Null);
}

#[test]
fn where_unknown_marker_is_denied() {
    let rule = AccessRule::Where {
        conditions: vec![(
            "orgId".to_string(),
            WhereValue::Marker(UserMarker { marker: "user.orgId".to_string() }),
        )],
    };
    match evaluate(&rule, &rule_claims()) {
        Err(AccessError::Denied(msg)) => assert_eq!(msg, "Unknown user marker: user.orgId"),
        Ok(_) => panic!("expected a refusal"),
    }
}

#[test]
fn all_requires_all_to_pass() {
    let rule = AccessRule::All { rules: vec![AccessRule::Authenticated, user_id_where()] };
    let result = evaluate(&rule, &rule_claims()).unwrap();
    assert!(result.allowed);
    assert_eq!(result.where_conditions.len(), 1);
}

#[test]
fn all_fails_if_any_fails() {
    let mut empty_claims = rule_claims();
    empty_claims.sub = String::new();
    let rule = AccessRule::All { rules: vec![AccessRule::Authenticated, AccessRule::Public] };
    let result = evaluate(&rule, &empty_claims);
    assert!(result.is_err());
}

#[test]
fn any_passes_if_one_passes() {
    let rule = AccessRule::Any {
        rules: vec![
            AccessRule::Role { roles: vec!["admin".to_string()] },
            AccessRule::Authenticated,
        ],
    };
    let result = evaluate(&rule, &rule_claims()).unwrap();
    assert!(result.allowed);
}

#[test]
fn any_reports_the_last_refusal_and_empty_any_refuses() {
    let rule = AccessRule::Any {
        rules: vec![
            AccessRule::Role { roles: vec!["admin".to_string()] },
            AccessRule::Entitlement { entitlement: "billing".to_string() },
        ],
    };
    match evaluate(&rule, &rule_claims()) {
        Err(AccessError::Denied(msg)) => {
            assert_eq!(msg, "Entitlement check not implemented in POC: billing")
        }
        Ok(_) => panic!("expected a refusal"),
    }
    match evaluate(&AccessRule::Any { rules: vec![] }, &rule_claims()) {
        Err(AccessError::Denied(msg)) => assert_eq!(msg, "No rules matched"),
        Ok(_) => panic!("expected a refusal"),
    }
}

#[test]
fn role_check_works() {
    let rule = AccessRule::Role { roles: vec!["user".to_string(), "admin".to_string()] };
    let result = evaluate(&rule, &rule_claims());
    assert!(result.is_ok());

    let rule = AccessRule::Role { roles: vec!["admin".to_string()] };
    let result = evaluate(&rule, &rule_claims());
    assert!(result.is_err());
    assert_eq!(result.unwrap_err().to_string(), "Access denied: Requires role: [\"admin\"]");
}

#[test]
fn valid_token_verifies() {
    let claims = token_claims();
    let token = create_hs256(&claims, SECRET);
    let result = verify(&token, SECRET);
    assert!(result.is_ok());
    let decoded = result.unwrap();
    assert_eq!(decoded.sub, "user-042");
    assert_eq!(decoded.tenant_id, Some("tenant-001".to_string()));
}

#[test]
fn created_token_payload_is_the_claims_json() {
    let claims = JwtClaims {
        sub: "u".to_string(),
        tenant_id: None,
        roles: vec!["a".to_string(), "b".to_string()],
        exp: 5,
        iat: 3,
    };
    let token = create_hs256(&claims, SECRET);
    let payload = verify_signature(&token, SECRET).unwrap();
    assert_eq!(
        String::from_utf8(payload).unwrap(),
        r#"{"exp":5,"iat":3,"roles":["a","b"],"sub":"u","tenant_id":null}"#
    );
    assert!(token.starts_with("eyJhbGciOiJIUzI1NiIsInR5cCI6IkpXVCJ9."));
}

#[test]
fn tampered_signature_rejected() {
    let token = create_hs256(&token_claims(), SECRET);
    let dot_pos = token.rfind('.').unwrap();
    let tampered = format!(
        "{}.{}",
        &token[..dot_pos],
        base64::engine::general_purpose::URL_SAFE_NO_PAD.encode(b"this-is-not-the-real-signature!!")
    );
    let result = verify(&tampered, SECRET);
    assert!(matches!(result, Err(JwtError::InvalidSignature)));
}

#[test]
fn wrong_secret_rejected() {
    let token = create_hs256(&token_claims(), SECRET);
    let result = verify(&token, b"wrong-secret-key-for-benchmarks!");
    assert!(matches!(result, Err(JwtError::InvalidSignature)));
}

#[test]
fn expired_token_rejected() {
    let mut claims = token_claims();
    claims.exp = 1;
    let token = create_hs256(&claims, SECRET);
    let result = verify(&token, SECRET);
    assert!(matches!(result, Err(JwtError::Expired)));
}

#[test]
fn malformed_token_rejected() {
    assert!(matches!(verify("not-a-jwt", SECRET), Err(JwtError::MalformedToken)));
    assert!(matches!(verify("a.b", SECRET), Err(JwtError::MalformedToken)));
    assert!(matches!(verify("a.b.c.d", SECRET), Err(JwtError::MalformedToken)));
    assert!(matches!(verify("a.b.!!", SECRET), Err(JwtError::MalformedToken)));
}

#[test]
fn jwt_error_messages() {
    assert_eq!(JwtError::MalformedToken.to_string(), "Malformed JWT token");
    assert_eq!(JwtError::InvalidSignature.to_string(), "Invalid JWT signature");
    assert_eq!(JwtError::Expired.to_string(), "JWT token expired");
    assert_eq!(JwtError::InvalidPayload("x".to_string()).to_string(), "Invalid JWT payload: x");
}

#[test]
fn expiry_zero_never_expires() {
    let mut claims = rule_claims();
    claims.exp = 0;
    assert!(check_expiry(claims, u64::MAX).is_ok());
    let mut claims = rule_claims();
    claims.exp = 10;
    assert!(check_expiry(claims, 10).is_ok());
    let mut claims = rule_claims();
    claims.exp = 10;
    assert!(matches!(check_expiry(claims, 11), Err(JwtError::Expired)));
}

#[test]
fn basic_select_no_where() {
    let (sql, params) =
        build_select("tasks", &["id", "title", "status"], &[], Some("createdAt"), OrderDir::Desc, 20, 0);
    assert_eq!(
        sql,
        r#"SELECT "id", "title", "status" FROM "tasks" ORDER BY "created_at" DESC LIMIT ?1 OFFSET ?2"#
    );
    assert_eq!(params.len(), 2);
    assert_eq!(params[0], ParamValue::Int(20));
    assert_eq!(params[1], ParamValue::Int(0));
}

#[test]
fn select_with_where_conditions() {
    let conditions = vec![("userId".to_string(), ParamValue::Text("user-042".to_string()))];
    let (sql, params) =
        build_select("tasks", &["id", "title"], &conditions, Some("createdAt"), OrderDir::Desc, 20, 0);
    assert_eq!(
        sql,
        r#"SELECT "id", "title" FROM "tasks" WHERE "user_id" = ?1 ORDER BY "created_at" DESC LIMIT ?2 OFFSET ?3"#
    );
    assert_eq!(params.len(), 3);
    assert_eq!(params[0], ParamValue::Text("user-042".to_string()));
}

#[test]
fn select_with_camel_case_aliases() {
    let (sql, _) = build_select("tasks", &["id", "userId", "createdAt"], &[], None, OrderDir::Asc, 10, 0);
    assert!(sql.contains(r#""user_id" AS "userId""#));
    assert!(sql.contains(r#""created_at" AS "createdAt""#));
    assert!(sql.contains(r#""id""#));
}

#[test]
fn select_with_two_conditions_ascending() {
    let conditions = vec![
        ("userId".to_string(), ParamValue::Text("u".to_string())),
        ("done".to_string(), ParamValue::Bool(true)),
    ];
    let (sql, params) = build_select("t", &["id"], &conditions, Some("id"), OrderDir::Asc, 5, 7);
    assert_eq!(
        sql,
        r#"SELECT "id" FROM "t" WHERE "user_id" = ?1 AND "done" = ?2 ORDER BY "id" ASC LIMIT ?3 OFFSET ?4"#
    );
    assert_eq!(
        params,
        vec![
            ParamValue::Text("u".to_string()),
            ParamValue::Bool(true),
            ParamValue::Int(5),
            ParamValue::Int(7)
        ]
    );
}

#[test]
fn list_response_envelope() {
    let items = vec![r#"{"id":"1","title":"Test"}"#.to_string()];
    let response = build_list_response(&items, Some(42), 20, 0);
    let v: serde_json::Value = serde_json::from_str(&response).unwrap();
    assert_eq!(v["pagination"]["total"], 42);
    assert_eq!(v["pagination"]["limit"], 20);
    assert_eq!(v["items"].as_array().unwrap().len(), 1);
}

#[test]
fn list_response_envelope_exact_text() {
    let response = build_list_response(&vec![], None, 10, 5);
    assert_eq!(
        response,
        r#"{"items":[],"pagination":{"limit":10,"offset":5,"total":null}}"#
    );
}

#[test]
fn bearer_prefix_is_stripped() {
    assert_eq!(bearer_token("Bearer abc.def"), "abc.def");
    assert_eq!(bearer_token("abc.def"), "abc.def");
    assert_eq!(bearer_token("bearer x"), "bearer x");
}

#[test]
fn task_config_plans_the_users_query() {
    let config = task_entity_config();
    assert_eq!(config.table, "tasks");
    assert_eq!(config.columns.len(), 7);
    let params = ListParams {
        limit: 20,
        offset: 0,
        order_by: Some("createdAt".to_string()),
        order_dir: OrderDir::Desc,
    };
    let (sql, bind) = plan_list_query(&config, &rule_claims(), &params).unwrap();
    assert_eq!(
        sql,
        r#"SELECT "id", "title", "description", "status", "user_id" AS "userId", "created_at" AS "createdAt", "updated_at" AS "updatedAt" FROM "tasks" WHERE "user_id" = ?1 ORDER BY "created_at" DESC LIMIT ?2 OFFSET ?3"#
    );
    assert_eq!(
        bind,
        vec![ParamValue::Text("user-042".to_string()), ParamValue::Int(20), ParamValue::Int(0)]
    );

    let mut anonymous = rule_claims();
    anonymous.sub = String::new();
    match plan_list_query(&config, &anonymous, &params) {
        Err(e) => assert_eq!(e.to_string(), "Access denied: Not authenticated"),
        Ok(_) => panic!("expected a refusal"),
    }
}
