use drizzle_export::defaults::{
    default_chain_given, default_needs_sql_given, drizzle_default_chain, drizzle_default_needs_sql,
};
use drizzle_export::drizzle::{
    export, render_entity, render_entity_with_schema, to_pascal_case_for_tests, DrizzleExporter,
    DrizzleExporterWithConfig,
};
use drizzle_export::enums::{infer_relation_field_name, render_enum_decl, to_camel_case, to_pascal_case};
use drizzle_export::model::{
    ColumnDef, ColumnType, ComplexColumnType, EnumValues, NumValue, ReferenceAction,
    SimpleColumnType, TableConstraint, TableDef,
};
use drizzle_export::relations::render_relations_block;
use drizzle_export::render::{reference_action_to_drizzle, render_table};
use drizzle_export::text::{is_white_space, parses_as_float};
use drizzle_export::types::{col_type_symbol, render_col_type_call};

fn col(name: &str, ty: ColumnType, nullable: bool, default: Option<&str>) -> ColumnDef {
    ColumnDef {
        name: name.to_string(),
        column_type: ty,
        nullable,
        default: default.map(|d| d.to_string()),
    }
}

fn simple(t: SimpleColumnType) -> ColumnType {
    ColumnType::Simple(t)
}

fn strings(v: &[&str]) -> Vec<String> {
    v.iter().map(|s| s.to_string()).collect()
}

fn pk(auto_increment: bool, cols: &[&str]) -> TableConstraint {
    TableConstraint::PrimaryKey { auto_increment, columns: strings(cols) }
}

fn fk(cols: &[&str], ref_table: &str, ref_cols: &[&str], on_delete: Option<ReferenceAction>) -> TableConstraint {
    TableConstraint::ForeignKey {
        columns: strings(cols),
        ref_table: ref_table.to_string(),
        ref_columns: strings(ref_cols),
        on_delete,
        on_update: None,
    }
}

fn users() -> TableDef {
    TableDef {
        name: "users".to_string(),
        description: None,
        columns: vec![
            col("id", simple(SimpleColumnType::Integer), false, None),
            col("email", ColumnType::Complex(ComplexColumnType::Varchar { length: 255 }), false, None),
            col("created_at", simple(SimpleColumnType::Timestamptz), false, Some("now()")),
        ],
        constraints: vec![
            pk(true, &["id"]),
            TableConstraint::Unique { name: None, columns: strings(&["email"]) },
        ],
    }
}

fn post_status() -> ColumnType {
    ColumnType::Complex(ComplexColumnType::Enum {
        name: "post_status".to_string(),
        values: EnumValues::String(strings(&["draft", "published"])),
    })
}

fn posts() -> TableDef {
    TableDef {
        name: "posts".to_string(),
        description: None,
        columns: vec![
            col("id", simple(SimpleColumnType::Integer), false, None),
            col("author_id", simple(SimpleColumnType::Integer), false, None),
            col("title", simple(SimpleColumnType::Text), true, None),
            col("status", post_status(), false, Some("'draft'")),
        ],
        constraints: vec![
            pk(true, &["id"]),
            fk(&["author_id"], "users", &["id"], Some(ReferenceAction::Cascade)),
            TableConstraint::Index { name: None, columns: strings(&["author_id"]) },
        ],
    }
}

const USERS_TABLE: &str = "export const users = pgTable(\"users\", {
  id: serial(\"id\").primaryKey(),
  email: varchar(\"email\", { length: 255 }).notNull().unique(),
  createdAt: timestamp(\"created_at\", { withTimezone: true }).notNull().defaultNow(),
});";

const POSTS_TABLE: &str = "export const posts = pgTable(\"posts\", {
  id: serial(\"id\").primaryKey(),
  authorId: integer(\"author_id\").notNull().references(() => users.id, { onDelete: \"cascade\" }),
  title: text(\"title\"),
  status: postStatus(\"status\").notNull().default(\"draft\"),
}, (t) => ({
  idxAuthorId: index().on(t.authorId),
}));";

const POSTS_RELATIONS: &str = "export const postsRelations = relations(posts, ({ one, many }) => ({
  author: one(users, { fields: [posts.authorId], references: [users.id] }),
}));";

const USERS_RELATIONS: &str = "export const usersRelations = relations(users, ({ one, many }) => ({
  posts: many(posts),
}));";

const POST_STATUS_ENUM: &str = "export const postStatus = pgEnum(\"post_status\", [\"draft\", \"published\"]);";

#[test]
fn camel_case_examples() {
    assert_eq!(to_camel_case("user_profiles"), "userProfiles");
    assert_eq!(to_camel_case("_private"), "private");
    assert_eq!(to_camel_case("a__b"), "aB");
    assert_eq!(to_camel_case("already"), "already");
    assert_eq!(to_camel_case("trailing_"), "trailing");
    assert_eq!(to_camel_case("x_ß"), "xSS");
    assert_eq!(to_camel_case(""), "");
}

#[test]
fn pascal_case_examples() {
    assert_eq!(to_pascal_case("user_profiles"), "UserProfiles");
    assert_eq!(to_pascal_case(""), "");
    assert_eq!(to_pascal_case("_x"), "X");
    assert_eq!(to_pascal_case("a__b"), "AB");
    assert_eq!(to_pascal_case_for_tests("order_items"), "OrderItems");
}

#[test]
fn pascal_is_capitalized_camel_on_examples() {
    for s in ["user_profiles", "a__b", "trailing_", "x_ß", "plain"] {
        let camel = to_camel_case(s);
        let mut expected: String = s.chars().next().unwrap().to_uppercase().collect();
        expected.push_str(&camel[camel.chars().next().unwrap().len_utf8()..]);
        assert_eq!(to_pascal_case(s), expected);
    }
}

#[test]
fn pascal_is_capitalized_camel_after_leading_underscores() {
    for s in ["__ab", "___a_b", "_ab", "__", "__9x"] {
        let camel = to_camel_case(s);
        let expected = match camel.chars().next() {
            None => String::new(),
            Some(c) => c.to_ascii_uppercase().to_string() + &camel[1..],
        };
        assert_eq!(to_pascal_case(s), expected, "{s:?}");
    }
}

#[test]
fn case_conversions_are_idempotent_on_ascii() {
    for s in ["user_profiles", "_x", "a__b", "trailing_", "__lead", "plain", "", "_", "a_1_b"] {
        let c = to_camel_case(s);
        assert!(!c.contains('_'));
        assert_eq!(to_camel_case(&c), c);
        let p = to_pascal_case(s);
        assert!(!p.contains('_'));
        assert_eq!(to_pascal_case(&p), p);
    }
}

#[test]
fn camel_case_keeps_plain_names() {
    for s in ["users", "createdAt", "Ärger", "x"] {
        assert_eq!(to_camel_case(s), s);
    }
}

#[test]
fn relation_field_names() {
    assert_eq!(infer_relation_field_name("user_id"), "user");
    assert_eq!(infer_relation_field_name("owner"), "owner");
    assert_eq!(infer_relation_field_name("_id"), "");
    assert_eq!(infer_relation_field_name("id"), "id");
    assert_eq!(infer_relation_field_name("user_id_id"), "user_id");
}

#[test]
fn enum_declarations() {
    let values = EnumValues::String(strings(&["active", "inactive"]));
    assert_eq!(
        render_enum_decl("user_status", "userStatus", &values),
        "export const userStatus = pgEnum(\"user_status\", [\"active\", \"inactive\"]);"
    );
    let ints = EnumValues::Integer(vec![
        NumValue { name: "LOW".to_string(), value: 1 },
        NumValue { name: "HIGH".to_string(), value: 9 },
    ]);
    assert_eq!(
        render_enum_decl("priority", "priority", &ints),
        "export const priority = pgEnum(\"priority\", [\"LOW\", \"HIGH\"]);"
    );
    let empty = EnumValues::String(Vec::new());
    assert_eq!(render_enum_decl("e", "e", &empty), "export const e = pgEnum(\"e\", []);");
}

#[test]
fn column_type_symbols() {
    assert_eq!(col_type_symbol(&simple(SimpleColumnType::Integer), true), "serial");
    assert_eq!(col_type_symbol(&simple(SimpleColumnType::Integer), false), "integer");
    assert_eq!(col_type_symbol(&simple(SimpleColumnType::BigInt), true), "bigserial");
    assert_eq!(col_type_symbol(&simple(SimpleColumnType::Timestamptz), false), "timestamp");
    assert_eq!(col_type_symbol(&simple(SimpleColumnType::Json), false), "jsonb");
    assert_eq!(col_type_symbol(&simple(SimpleColumnType::Inet), false), "text");
    assert_eq!(col_type_symbol(&post_status(), false), "postStatus");
    let int_enum = ColumnType::Complex(ComplexColumnType::Enum {
        name: "priority".to_string(),
        values: EnumValues::Integer(Vec::new()),
    });
    assert_eq!(col_type_symbol(&int_enum, false), "integer");
    let custom = ColumnType::Complex(ComplexColumnType::Custom { custom_type: "TSVECTOR".to_string() });
    assert_eq!(col_type_symbol(&custom, false), "text");
}

#[test]
fn column_type_calls() {
    assert_eq!(render_col_type_call(&simple(SimpleColumnType::SmallInt), "n", false), "smallint(\"n\")");
    assert_eq!(
        render_col_type_call(&simple(SimpleColumnType::BigInt), "id", true),
        "bigserial(\"id\", { mode: \"number\" })"
    );
    assert_eq!(
        render_col_type_call(&simple(SimpleColumnType::BigInt), "n", false),
        "bigint(\"n\", { mode: \"number\" })"
    );
    assert_eq!(
        render_col_type_call(&simple(SimpleColumnType::Timestamptz), "at", false),
        "timestamp(\"at\", { withTimezone: true })"
    );
    assert_eq!(render_col_type_call(&simple(SimpleColumnType::Bytea), "b", false), "text(\"b\") /* bytea */");
    assert_eq!(render_col_type_call(&simple(SimpleColumnType::Text), "t", false), "text(\"t\")");
    assert_eq!(
        render_col_type_call(&ColumnType::Complex(ComplexColumnType::Numeric { precision: 10, scale: 2 }), "amount", false),
        "numeric(\"amount\", { precision: 10, scale: 2 })"
    );
    assert_eq!(
        render_col_type_call(&ColumnType::Complex(ComplexColumnType::Char { length: 0 }), "c", false),
        "char(\"c\", { length: 0 })"
    );
    assert_eq!(
        render_col_type_call(&ColumnType::Complex(ComplexColumnType::Varchar { length: 4294967295 }), "v", false),
        "varchar(\"v\", { length: 4294967295 })"
    );
    assert_eq!(
        render_col_type_call(&ColumnType::Complex(ComplexColumnType::Custom { custom_type: "TSVECTOR".to_string() }), "doc", false),
        "text(\"doc\") /* TSVECTOR */"
    );
    assert_eq!(render_col_type_call(&post_status(), "status", false), "postStatus(\"status\")");
}

#[test]
fn call_starts_with_collected_symbol() {
    let types = vec![
        simple(SimpleColumnType::Integer),
        simple(SimpleColumnType::BigInt),
        simple(SimpleColumnType::Timestamptz),
        simple(SimpleColumnType::Xml),
        post_status(),
        ColumnType::Complex(ComplexColumnType::Numeric { precision: 1, scale: 0 }),
    ];
    for ty in &types {
        for auto in [false, true] {
            let head = format!("{}(\"c\"", col_type_symbol(ty, auto));
            assert!(render_col_type_call(ty, "c", auto).starts_with(&head));
        }
    }
}

#[test]
fn reference_actions() {
    assert_eq!(reference_action_to_drizzle(&ReferenceAction::Cascade), "cascade");
    assert_eq!(reference_action_to_drizzle(&ReferenceAction::Restrict), "restrict");
    assert_eq!(reference_action_to_drizzle(&ReferenceAction::SetNull), "set null");
    assert_eq!(reference_action_to_drizzle(&ReferenceAction::SetDefault), "set default");
    assert_eq!(reference_action_to_drizzle(&ReferenceAction::NoAction), "no action");
}

#[test]
fn defaults_that_need_sql() {
    assert!(!drizzle_default_needs_sql("true"));
    assert!(!drizzle_default_needs_sql("false"));
    assert!(!drizzle_default_needs_sql("NOW()"));
    assert!(!drizzle_default_needs_sql("CURRENT_TIMESTAMP"));
    assert!(!drizzle_default_needs_sql("gen_random_uuid()"));
    assert!(drizzle_default_needs_sql("lower('x')"));
    assert!(!drizzle_default_needs_sql("'abc'"));
    assert!(!drizzle_default_needs_sql("\"abc\""));
    assert!(!drizzle_default_needs_sql("42"));
    assert!(!drizzle_default_needs_sql("1.5e3"));
    assert!(!drizzle_default_needs_sql("-.5"));
    assert!(!drizzle_default_needs_sql("inf"));
    assert!(drizzle_default_needs_sql("1e"));
    assert!(drizzle_default_needs_sql("CURRENT_USER"));
    assert!(drizzle_default_needs_sql(""));
}

#[test]
fn default_chains() {
    let text = simple(SimpleColumnType::Text);
    let json = simple(SimpleColumnType::Json);
    assert_eq!(drizzle_default_chain("true", &simple(SimpleColumnType::Boolean)), ".default(true)");
    assert_eq!(drizzle_default_chain("false", &simple(SimpleColumnType::Boolean)), ".default(false)");
    assert_eq!(drizzle_default_chain("CURRENT_TIMESTAMP", &simple(SimpleColumnType::Timestamp)), ".defaultNow()");
    assert_eq!(drizzle_default_chain("Now()", &simple(SimpleColumnType::Timestamp)), ".defaultNow()");
    assert_eq!(drizzle_default_chain("uuid_generate_v4()", &simple(SimpleColumnType::Uuid)), ".defaultRandom()");
    assert_eq!(drizzle_default_chain(" {\"a\": 1} ", &json), ".default(sql`'{\"a\": 1}'::jsonb`)");
    assert_eq!(drizzle_default_chain("[1,2]", &json), ".default(sql`'[1,2]'::jsonb`)");
    assert_eq!(drizzle_default_chain("{\"k\": \"it's\\\\`\"}", &json), ".default(sql`'{\"k\": \"it''s\\\\\\\\\\`\"}'::jsonb`)");
    assert_eq!(drizzle_default_chain("lower(`x`)", &text), ".default(sql`lower(\\`x\\`)`)");
    assert_eq!(drizzle_default_chain("'it\"s'", &text), ".default(\"it\\\"s\")");
    assert_eq!(drizzle_default_chain("'a\\b'", &text), ".default(\"a\\\\b\")");
    assert_eq!(drizzle_default_chain("''", &text), ".default(\"\")");
    assert_eq!(drizzle_default_chain("42", &simple(SimpleColumnType::Integer)), ".default(42)");
    assert_eq!(drizzle_default_chain("-1.5e-3", &simple(SimpleColumnType::Real)), ".default(-1.5e-3)");
    assert_eq!(drizzle_default_chain("CURRENT_USER", &text), ".default(sql`CURRENT_USER`)");
    assert_eq!(drizzle_default_chain("'draft'", &post_status()), ".default(\"draft\")");
    let int_enum = ColumnType::Complex(ComplexColumnType::Enum {
        name: "priority".to_string(),
        values: EnumValues::Integer(vec![
            NumValue { name: "LOW".to_string(), value: -3 },
            NumValue { name: "ACTIVE".to_string(), value: 2 },
            NumValue { name: "ACTIVE".to_string(), value: 7 },
        ]),
    });
    assert_eq!(drizzle_default_chain("ACTIVE", &int_enum), ".default(2)");
    assert_eq!(drizzle_default_chain("LOW", &int_enum), ".default(-3)");
    assert_eq!(drizzle_default_chain("MISSING", &int_enum), ".default(sql`MISSING`)");
    assert_eq!(drizzle_default_chain("5", &int_enum), ".default(5)");
    let min_enum = ColumnType::Complex(ComplexColumnType::Enum {
        name: "m".to_string(),
        values: EnumValues::Integer(vec![NumValue { name: "MIN".to_string(), value: i64::MIN }]),
    });
    assert_eq!(drizzle_default_chain("MIN", &min_enum), ".default(-9223372036854775808)");
}

#[test]
fn defaults_decided_by_given_lowercase() {
    let ts = simple(SimpleColumnType::Timestamp);
    let text = simple(SimpleColumnType::Text);
    assert!(!default_needs_sql_given("NOW()", "now()"));
    assert!(default_needs_sql_given("NOW()", "NOW()"));
    assert!(!default_needs_sql_given("X", "current_timestamp"));
    assert_eq!(default_chain_given("NOW()", "now()", &ts), ".defaultNow()");
    assert_eq!(default_chain_given("NOW()", "NOW()", &ts), ".default(sql`NOW()`)");
    assert_eq!(default_chain_given("X", "newid()", &text), ".defaultRandom()");
    assert_eq!(default_chain_given("ÀB", "àb", &text), ".default(sql`ÀB`)");
    assert_eq!(drizzle_default_chain("GEN_RANDOM_UUID()", &simple(SimpleColumnType::Uuid)), ".defaultRandom()");
}

#[test]
fn sql_template_iff_needs_sql_on_examples() {
    let types = vec![simple(SimpleColumnType::Text), simple(SimpleColumnType::Json), post_status()];
    let defaults = ["true", "now()", "lower(x)", "'a'", "12", "CURRENT_USER", " {}", "[", "x`y", "nan", "+inf"];
    for ty in &types {
        for d in defaults {
            let sql = drizzle_default_chain(d, ty).starts_with(".default(sql`");
            assert_eq!(sql, drizzle_default_needs_sql(d), "{d:?}");
        }
    }
}

#[test]
fn whitespace_matches_std() {
    for u in 0u32..=0x10FFFF {
        if let Some(c) = char::from_u32(u) {
            assert_eq!(is_white_space(c), c.is_whitespace(), "{u:#x}");
        }
    }
}

#[test]
fn float_grammar_matches_std() {
    let samples = [
        "", "0", "42", "-7", "+7", "1.", ".5", ".", "-.", "1.5e3", "1e", "1e+", "1e-5", "1E5", "e5",
        "inf", "INF", "-infinity", "+Infinity", "nan", "NaN", "-nan", "infinit", "infinityx", "1_000",
        " 1", "1 ", "0x10", "1.2.3", "1e5.5", "--1", "+", "-", "1e5e5", "٣", "1.e5", ".e5", "00012",
        "9999999999999999999999999999999999999e999999", "inF", "İnf",
    ];
    for s in samples {
        let chars: Vec<char> = s.chars().collect();
        assert_eq!(parses_as_float(&chars), s.parse::<f64>().is_ok(), "{s:?}");
    }
}

#[test]
fn users_table() {
    assert_eq!(render_table(&users(), &[]), USERS_TABLE);
}

#[test]
fn posts_table() {
    assert_eq!(render_table(&posts(), &[users()]), POSTS_TABLE);
}

#[test]
fn relations_of_schema() {
    let schema = vec![users(), posts()];
    assert_eq!(render_relations_block(&posts(), &schema).as_deref(), Some(POSTS_RELATIONS));
    assert_eq!(render_relations_block(&users(), &schema).as_deref(), Some(USERS_RELATIONS));
    assert_eq!(render_relations_block(&users(), &[]), None);
}

#[test]
fn entity_with_schema() {
    let schema = vec![users(), posts()];
    let expected = format!("{POST_STATUS_ENUM}\n\n{POSTS_TABLE}\n\n{POSTS_RELATIONS}");
    assert_eq!(render_entity_with_schema(&posts(), &schema), expected);
    let exporter = DrizzleExporter;
    assert_eq!(exporter.render_entity_with_schema(&posts(), &schema), Ok(expected));
}

#[test]
fn entity_alone_has_no_relations() {
    assert_eq!(render_entity(&posts()), format!("{POST_STATUS_ENUM}\n\n{POSTS_TABLE}"));
    assert_eq!(render_entity(&users()), USERS_TABLE);
    for t in [users(), posts(), categories(), memberships()] {
        assert!(!render_entity(&t).contains("relations("));
        assert_eq!(DrizzleExporter.render_entity(&t), Ok(render_entity(&t)));
    }
}

#[test]
fn export_joins_entities() {
    let schema = vec![users(), posts()];
    let expected = format!(
        "{USERS_TABLE}\n\n{USERS_RELATIONS}\n\n{POST_STATUS_ENUM}\n\n{POSTS_TABLE}\n\n{POSTS_RELATIONS}"
    );
    assert_eq!(export(&schema), Ok(expected));
    assert_eq!(export(&[]), Ok(String::new()));
}

#[test]
fn schema_file() {
    let schema = vec![users(), posts()];
    let config = ();
    let exporter = DrizzleExporterWithConfig::new(&config);
    let expected = format!(
        "import {{ pgTable, pgEnum, index, integer, serial, text, timestamp, varchar }} from \"drizzle-orm/pg-core\";\n\nimport {{ relations }} from \"drizzle-orm\";\n\n{POST_STATUS_ENUM}\n\n{USERS_TABLE}\n\n{POSTS_TABLE}\n\n{USERS_RELATIONS}\n\n{POSTS_RELATIONS}\n"
    );
    assert_eq!(exporter.render_schema(&schema), expected);
}

#[test]
fn empty_schema_file() {
    let exporter = DrizzleExporterWithConfig::new(&0u8);
    assert_eq!(exporter.render_schema(&[]), "import { pgTable } from \"drizzle-orm/pg-core\";\n");
}

fn categories() -> TableDef {
    TableDef {
        name: "categories".to_string(),
        description: None,
        columns: vec![
            col("id", simple(SimpleColumnType::Integer), false, None),
            col("parent_id", simple(SimpleColumnType::Integer), true, None),
        ],
        constraints: vec![
            pk(true, &["id"]),
            fk(&["parent_id"], "categories", &["id"], Some(ReferenceAction::SetNull)),
        ],
    }
}

#[test]
fn self_reference_alone_has_reciprocal() {
    let expected = "export const categories = pgTable(\"categories\", {
  id: serial(\"id\").primaryKey(),
  parentId: integer(\"parent_id\").references(() => categories.id, { onDelete: \"set null\" }),
});

export const categoriesRelations = relations(categories, ({ one, many }) => ({
  parent: one(categories, { fields: [categories.parentId], references: [categories.id], relationName: \"CategoriesParent\" }),
  parentCategories: many(categories, { relationName: \"CategoriesParent\" }),
}));";
    assert_eq!(render_entity_with_schema(&categories(), &[]), expected);
    assert_eq!(render_entity_with_schema(&categories(), &[categories()]), expected);
    assert_eq!(render_entity(&categories()), expected.split("\n\n").next().unwrap());
}

fn memberships() -> TableDef {
    TableDef {
        name: "memberships".to_string(),
        description: Some("Group\nmemberships\r\n".to_string()),
        columns: vec![
            col("user_id", simple(SimpleColumnType::Integer), false, None),
            col("group_id", simple(SimpleColumnType::Integer), false, None),
            col("role", simple(SimpleColumnType::Text), false, None),
        ],
        constraints: vec![
            pk(false, &["user_id", "group_id"]),
            TableConstraint::Unique { name: Some("uq_membership_role".to_string()), columns: strings(&["user_id", "role"]) },
            TableConstraint::Unique { name: None, columns: strings(&["group_id", "role"]) },
            TableConstraint::Check,
            TableConstraint::Index { name: Some("ix_role".to_string()), columns: strings(&["role"]) },
        ],
    }
}

const MEMBERSHIPS_TABLE: &str = "// Group
// memberships
export const memberships = pgTable(\"memberships\", {
  userId: integer(\"user_id\").notNull(),
  groupId: integer(\"group_id\").notNull(),
  role: text(\"role\").notNull(),
}, (t) => ({
  pk: primaryKey({ columns: [t.userId, t.groupId] }),
  uqMembershipRole: unique(\"uq_membership_role\").on(t.userId, t.role),
  uqGroupIdRole: unique().on(t.groupId, t.role),
  ixRole: index(\"ix_role\").on(t.role),
}));";

#[test]
fn composite_constraints_and_description() {
    assert_eq!(render_table(&memberships(), &[]), MEMBERSHIPS_TABLE);
    let exporter = DrizzleExporterWithConfig::new(&());
    assert_eq!(
        exporter.render_schema(&[memberships()]),
        format!("import {{ pgTable, primaryKey, unique, index, integer, text }} from \"drizzle-orm/pg-core\";\n\n{MEMBERSHIPS_TABLE}\n")
    );
}

#[test]
fn description_line_endings() {
    let mut t = TableDef {
        name: "t".to_string(),
        description: Some("a\r\n\nb\r".to_string()),
        columns: Vec::new(),
        constraints: Vec::new(),
    };
    assert_eq!(render_table(&t, &[]), "// a\n// \n// b\r\nexport const t = pgTable(\"t\", {\n});");
    t.description = Some(String::new());
    assert_eq!(render_table(&t, &[]), "export const t = pgTable(\"t\", {\n});");
}

fn users_plain() -> TableDef {
    TableDef {
        name: "users".to_string(),
        description: None,
        columns: vec![col("id", simple(SimpleColumnType::Uuid), false, Some("gen_random_uuid()"))],
        constraints: vec![pk(false, &["id"])],
    }
}

#[test]
fn multiple_foreign_keys_to_one_table() {
    let messages = TableDef {
        name: "messages".to_string(),
        description: None,
        columns: vec![
            col("sender_id", simple(SimpleColumnType::Uuid), false, None),
            col("recipient_id", simple(SimpleColumnType::Uuid), false, None),
            col("owner", simple(SimpleColumnType::Uuid), true, None),
        ],
        constraints: vec![
            fk(&["sender_id"], "users", &["id"], None),
            fk(&["recipient_id"], "users", &[], None),
            fk(&["owner"], "profiles", &["uid"], None),
        ],
    };
    let schema = vec![users_plain(), messages.clone()];
    assert_eq!(
        render_table(&messages, &schema),
        "export const messages = pgTable(\"messages\", {
  senderId: uuid(\"sender_id\").notNull().references(() => users.id),
  recipientId: uuid(\"recipient_id\").notNull().references(() => users.id),
  owner: uuid(\"owner\").references(() => profiles.uid),
});"
    );
    assert_eq!(
        render_relations_block(&messages, &schema).unwrap(),
        "export const messagesRelations = relations(messages, ({ one, many }) => ({
  sender: one(users, { fields: [messages.senderId], references: [users.id], relationName: \"MessagesSender\" }),
  recipient: one(users, { fields: [messages.recipientId], references: [users.id], relationName: \"MessagesRecipient\" }),
  ownerProfiles: one(profiles, { fields: [messages.owner], references: [profiles.uid] }),
}));"
    );
    assert_eq!(
        render_relations_block(&users_plain(), &schema).unwrap(),
        "export const usersRelations = relations(users, ({ one, many }) => ({
  senderMessages: many(messages, { relationName: \"MessagesSender\" }),
  recipientMessages: many(messages, { relationName: \"MessagesRecipient\" }),
}));"
    );
    assert_eq!(
        render_table(&users_plain(), &schema),
        "export const users = pgTable(\"users\", {\n  id: uuid(\"id\").primaryKey().defaultRandom(),\n});"
    );
}

#[test]
fn relation_names_agree_on_both_sides() {
    let posts_one = TableDef {
        name: "posts".to_string(),
        description: None,
        columns: vec![col("author_id", simple(SimpleColumnType::Uuid), false, None)],
        constraints: vec![fk(&["author_id"], "users", &["id"], None)],
    };
    let schema = vec![users_plain(), posts_one.clone()];
    let fwd = render_relations_block(&posts_one, &schema).unwrap();
    let back = render_relations_block(&users_plain(), &schema).unwrap();
    assert!(!fwd.contains("relationName"));
    assert!(!back.contains("relationName"));
    assert!(back.contains("  posts: many(posts),"));
}

#[test]
fn unique_foreign_key_is_one_to_one() {
    let profiles = TableDef {
        name: "profiles".to_string(),
        description: None,
        columns: vec![col("user_id", simple(SimpleColumnType::Uuid), false, None)],
        constraints: vec![
            fk(&["user_id"], "users", &["id"], None),
            TableConstraint::Unique { name: Some("uq_profile_user".to_string()), columns: strings(&["user_id"]) },
        ],
    };
    let schema = vec![users_plain(), profiles.clone()];
    assert_eq!(
        render_relations_block(&users_plain(), &schema).unwrap(),
        "export const usersRelations = relations(users, ({ one, many }) => ({\n  profiles: one(profiles),\n}));"
    );
    assert_eq!(
        render_table(&profiles, &schema),
        "export const profiles = pgTable(\"profiles\", {\n  userId: uuid(\"user_id\").notNull().unique(\"uq_profile_user\").references(() => users.id),\n});"
    );
}

#[test]
fn enum_named_like_a_constructor_shadows_its_import() {
    let t = TableDef {
        name: "docs".to_string(),
        description: None,
        columns: vec![
            col("kind", ColumnType::Complex(ComplexColumnType::Enum {
                name: "text".to_string(),
                values: EnumValues::String(strings(&["a"])),
            }), false, None),
            col("body", simple(SimpleColumnType::Text), true, Some("lower('A')")),
            col("prio", ColumnType::Complex(ComplexColumnType::Enum {
                name: "prio".to_string(),
                values: EnumValues::Integer(vec![NumValue { name: "HI".to_string(), value: 1 }]),
            }), false, Some("HI")),
        ],
        constraints: Vec::new(),
    };
    let out = DrizzleExporterWithConfig::new(&()).render_schema(&[t.clone()]);
    let expected = format!(
        "import {{ pgTable, pgEnum, integer }} from \"drizzle-orm/pg-core\";\n\nimport {{ sql }} from \"drizzle-orm\";\n\nexport const text = pgEnum(\"text\", [\"a\"]);\n\n{}\n",
        "export const docs = pgTable(\"docs\", {\n  kind: text(\"kind\").notNull(),\n  body: text(\"body\").default(sql`lower('A')`),\n  prio: integer(\"prio\").notNull().default(1),\n});"
    );
    assert_eq!(out, expected);
}

#[test]
fn enums_declared_once_across_tables() {
    let a = TableDef {
        name: "a".to_string(),
        description: None,
        columns: vec![col("s", post_status(), false, None), col("t", post_status(), false, None)],
        constraints: Vec::new(),
    };
    let b = TableDef {
        name: "b".to_string(),
        description: None,
        columns: vec![col("s", post_status(), false, None)],
        constraints: Vec::new(),
    };
    let out = DrizzleExporterWithConfig::new(&()).render_schema(&[a.clone(), b.clone()]);
    assert_eq!(out.matches("pgEnum(\"post_status\"").count(), 1);
    assert_eq!(render_entity(&a).matches("pgEnum(").count(), 1);
}
