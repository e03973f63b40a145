use benzina::{reconstruct, Entry, JoinError, Level, Plan, Quantity, Record, Value};

fn rec(id: u64, data: &str) -> Record {
    Record { id, data: data.to_string() }
}

fn column(name: &str, quantity: Quantity, position: usize) -> Entry {
    Entry::Column { name: name.to_string(), quantity, position }
}

fn nested(name: &str, level: usize) -> Entry {
    Entry::Nested { name: name.to_string(), level }
}

fn level(quantity: Quantity, output_type: &str, entries: Vec<Entry>) -> Level {
    Level { quantity, output_type: output_type.to_string(), entries }
}

fn object(output_type: &str, fields: Vec<(&str, Value)>) -> Value {
    Value::Object(
        output_type.to_string(),
        fields.into_iter().map(|(n, v)| (n.to_string(), v)).collect(),
    )
}

fn item(id: u64, data: &str) -> Value {
    Value::Item(rec(id, data))
}

fn users_posts_comments(top: Quantity) -> Plan {
    Plan {
        levels: vec![
            level(top, "UserWithPosts", vec![column("user", Quantity::One, 0), nested("posts", 1)]),
            level(
                Quantity::AtLeastZero,
                "PostWithComments",
                vec![column("post", Quantity::One, 1), nested("comments", 2)],
            ),
            level(Quantity::AtLeastZero, "CommentOut", vec![column("comment", Quantity::One, 2)]),
        ],
    }
}

fn comment(id: u64) -> Value {
    object("CommentOut", vec![("comment", item(id, ""))])
}

fn post(id: u64, comments: Vec<Value>) -> Value {
    object("PostWithComments", vec![("post", item(id, "")), ("comments", Value::List(comments))])
}

#[test]
fn scenario_user_posts_comments() {
    let rows = vec![
        vec![Some(rec(1, "A")), Some(rec(10, "")), Some(rec(100, ""))],
        vec![Some(rec(1, "A")), Some(rec(10, "")), Some(rec(101, ""))],
        vec![Some(rec(1, "A")), Some(rec(11, "")), None],
    ];
    let plan = users_posts_comments(Quantity::One);
    assert!(plan.validate());
    let expected = object(
        "UserWithPosts",
        vec![
            ("user", item(1, "A")),
            (
                "posts",
                Value::List(vec![post(10, vec![comment(100), comment(101)]), post(11, vec![])]),
            ),
        ],
    );
    assert_eq!(reconstruct(&plan, &rows), Ok(expected));
}

#[test]
fn scenario_assume_one_null_fails() {
    let rows = vec![vec![Some(rec(1, "")), None]];
    let plan = Plan {
        levels: vec![level(
            Quantity::One,
            "UserWithTopic",
            vec![column("user", Quantity::One, 0), column("topic", Quantity::AssumeOne, 1)],
        )],
    };
    assert_eq!(reconstruct(&plan, &rows), Err(JoinError::NullValue));
}

#[test]
fn assume_one_takes_value_from_a_later_row() {
    let rows = vec![vec![Some(rec(1, "")), None], vec![Some(rec(1, "")), Some(rec(5, "t"))]];
    let plan = Plan {
        levels: vec![level(
            Quantity::One,
            "UserWithTopic",
            vec![column("user", Quantity::One, 0), column("topic", Quantity::AssumeOne, 1)],
        )],
    };
    let expected = object("UserWithTopic", vec![("user", item(1, "")), ("topic", item(5, "t"))]);
    assert_eq!(reconstruct(&plan, &rows), Ok(expected));
}

#[test]
fn list_order_is_first_appearance() {
    let rows = vec![
        vec![Some(rec(2, "b"))],
        vec![Some(rec(1, "a"))],
        vec![Some(rec(2, "b"))],
        vec![Some(rec(3, "c"))],
    ];
    let plan = Plan {
        levels: vec![level(Quantity::AtLeastOne, "Out", vec![column("x", Quantity::One, 0)])],
    };
    let expected = Value::List(vec![
        object("Out", vec![("x", item(2, "b"))]),
        object("Out", vec![("x", item(1, "a"))]),
        object("Out", vec![("x", item(3, "c"))]),
    ]);
    assert_eq!(reconstruct(&plan, &rows), Ok(expected));
}

#[test]
fn duplicate_rows_change_nothing() {
    let row = vec![Some(rec(1, "A")), Some(rec(10, "")), Some(rec(100, ""))];
    let plan = users_posts_comments(Quantity::AtLeastZero);
    let once = reconstruct(&plan, &vec![row.clone()]);
    let thrice = reconstruct(&plan, &vec![row.clone(), row.clone(), row.clone()]);
    assert_eq!(once, thrice);
    let expected = Value::List(vec![object(
        "UserWithPosts",
        vec![("user", item(1, "A")), ("posts", Value::List(vec![post(10, vec![comment(100)])]))],
    )]);
    assert_eq!(once, Ok(expected));
}

#[test]
fn absent_possibly_empty_list_is_empty() {
    let rows = vec![vec![Some(rec(1, "")), None], vec![Some(rec(1, "")), None]];
    let plan = Plan {
        levels: vec![
            level(
                Quantity::One,
                "UserWithPosts",
                vec![column("user", Quantity::One, 0), nested("posts", 1), column("tags", Quantity::AtLeastZero, 1)],
            ),
            level(Quantity::AtLeastZero, "PostOut", vec![column("post", Quantity::One, 1)]),
        ],
    };
    let expected = object(
        "UserWithPosts",
        vec![("user", item(1, "")), ("posts", Value::List(vec![])), ("tags", Value::List(vec![]))],
    );
    assert_eq!(reconstruct(&plan, &rows), Ok(expected));
}

#[test]
fn interleaved_grandchildren_stay_with_their_child() {
    let rows = vec![
        vec![Some(rec(1, "")), Some(rec(10, "")), Some(rec(100, ""))],
        vec![Some(rec(1, "")), Some(rec(11, "")), Some(rec(110, ""))],
        vec![Some(rec(1, "")), Some(rec(10, "")), Some(rec(101, ""))],
        vec![Some(rec(1, "")), Some(rec(11, "")), Some(rec(111, ""))],
    ];
    let plan = users_posts_comments(Quantity::One);
    let expected = object(
        "UserWithPosts",
        vec![
            ("user", item(1, "")),
            (
                "posts",
                Value::List(vec![
                    post(10, vec![comment(100), comment(101)]),
                    post(11, vec![comment(110), comment(111)]),
                ]),
            ),
        ],
    );
    assert_eq!(reconstruct(&plan, &rows), Ok(expected));
}

#[test]
fn maybe_one_keeps_last_present_value() {
    let rows = vec![
        vec![Some(rec(1, "")), Some(rec(7, "x"))],
        vec![Some(rec(1, "")), Some(rec(8, "y"))],
        vec![Some(rec(1, "")), None],
    ];
    let plan = Plan {
        levels: vec![level(
            Quantity::MaybeOne,
            "Out",
            vec![column("user", Quantity::One, 0), column("last", Quantity::MaybeOne, 1)],
        )],
    };
    let expected = object("Out", vec![("user", item(1, "")), ("last", item(8, "y"))]);
    assert_eq!(reconstruct(&plan, &rows), Ok(expected));
}

#[test]
fn maybe_one_level_without_rows_is_absent() {
    let rows: Vec<Vec<Option<Record>>> = vec![];
    let plan = Plan {
        levels: vec![level(Quantity::MaybeOne, "Out", vec![column("user", Quantity::One, 0)])],
    };
    assert_eq!(reconstruct(&plan, &rows), Ok(Value::Absent));
}

#[test]
fn one_level_without_rows_is_not_found() {
    let rows: Vec<Vec<Option<Record>>> = vec![];
    let plan = Plan {
        levels: vec![level(Quantity::One, "Out", vec![column("user", Quantity::One, 0)])],
    };
    assert_eq!(reconstruct(&plan, &rows), Err(JoinError::NotFound));
}

#[test]
fn list_column_keeps_distinct_records() {
    let rows = vec![
        vec![Some(rec(1, "")), Some(rec(5, "p"))],
        vec![Some(rec(1, "")), None],
        vec![Some(rec(1, "")), Some(rec(6, "q"))],
        vec![Some(rec(1, "")), Some(rec(5, "p"))],
    ];
    let plan = Plan {
        levels: vec![level(
            Quantity::One,
            "Out",
            vec![column("user", Quantity::One, 0), column("tags", Quantity::AtLeastOne, 1)],
        )],
    };
    let expected = object(
        "Out",
        vec![("user", item(1, "")), ("tags", Value::List(vec![item(5, "p"), item(6, "q")]))],
    );
    assert_eq!(reconstruct(&plan, &rows), Ok(expected));
}

#[test]
fn malformed_plans_are_rejected() {
    assert!(!Plan { levels: vec![] }.validate());
    let no_column = Plan { levels: vec![level(Quantity::One, "Out", vec![])] };
    assert!(!no_column.validate());
    let backwards = Plan {
        levels: vec![level(Quantity::One, "Out", vec![column("a", Quantity::One, 0), nested("b", 0)])],
    };
    assert!(!backwards.validate());
    assert!(users_posts_comments(Quantity::One).validate());
}

#[test]
fn quantity_spellings() {
    assert_eq!(Quantity::parse("Option"), Ok(Quantity::MaybeOne));
    assert_eq!(Quantity::parse("One"), Ok(Quantity::One));
    assert_eq!(Quantity::parse("AssumeOne"), Ok(Quantity::AssumeOne));
    assert_eq!(Quantity::parse("Vec0"), Ok(Quantity::AtLeastZero));
    assert_eq!(Quantity::parse("Vec"), Ok(Quantity::AtLeastOne));
    let err = Quantity::parse("Many").unwrap_err();
    assert_eq!(
        err,
        "Unknown quantity `Many`. Expected `Option`, `One`, `AssumeOne`, `Vec0` or `Vec`"
    );
}

#[test]
fn assume_one_level_without_match_is_null_failure() {
    let rows = vec![vec![Some(rec(1, "")), None]];
    let plan = Plan {
        levels: vec![
            level(Quantity::One, "UserWithTopic", vec![column("user", Quantity::One, 0), nested("topic", 1)]),
            level(Quantity::AssumeOne, "TopicOut", vec![column("topic", Quantity::One, 1)]),
        ],
    };
    assert_eq!(reconstruct(&plan, &rows), Err(JoinError::NullValue));
}

#[test]
fn nested_assume_one_column_null_fails() {
    let rows = vec![
        vec![Some(rec(1, "")), Some(rec(10, "")), Some(rec(7, "t"))],
        vec![Some(rec(1, "")), Some(rec(11, "")), None],
    ];
    let plan = Plan {
        levels: vec![
            level(Quantity::One, "UserWithPosts", vec![column("user", Quantity::One, 0), nested("posts", 1)]),
            level(
                Quantity::AtLeastZero,
                "PostWithTopic",
                vec![column("post", Quantity::One, 1), column("topic", Quantity::AssumeOne, 2)],
            ),
        ],
    };
    assert_eq!(reconstruct(&plan, &rows), Err(JoinError::NullValue));
}

#[test]
fn interleaving_grandchild_rows_changes_nothing() {
    let r = |u: u64, p: u64, c: u64| vec![Some(rec(u, "")), Some(rec(p, "")), Some(rec(c, ""))];
    let grouped = vec![r(1, 10, 100), r(1, 10, 101), r(1, 11, 110), r(1, 11, 111), r(2, 20, 200)];
    let interleaved = vec![r(1, 10, 100), r(1, 11, 110), r(2, 20, 200), r(1, 10, 101), r(1, 11, 111)];
    let plan = users_posts_comments(Quantity::AtLeastOne);
    let a = reconstruct(&plan, &grouped);
    assert_eq!(a, reconstruct(&plan, &interleaved));
    let expected = Value::List(vec![
        object(
            "UserWithPosts",
            vec![
                ("user", item(1, "")),
                (
                    "posts",
                    Value::List(vec![
                        post(10, vec![comment(100), comment(101)]),
                        post(11, vec![comment(110), comment(111)]),
                    ]),
                ),
            ],
        ),
        object(
            "UserWithPosts",
            vec![("user", item(2, "")), ("posts", Value::List(vec![post(20, vec![comment(200)])]))],
        ),
    ]);
    assert_eq!(a, Ok(expected));
}
