//! Variant and multipart rule tables: exact-mask queries, group order,
//! unconditional parts, and the build failure taxonomy.

use mc_render::blockstate::BlockState;
use mc_render::blockstate::MultipartRecord;
use mc_render::blockstate::WhenRecord;
use mc_render::errors::BuildError;

fn s(t: &str) -> String {
    t.to_string()
}

#[test]
fn variants_select_by_exact_condition() {
    // blockstate {"variants": {"facing=north": a, "facing=south": b}}
    let records = vec![(s("facing=north"), 1u32), (s("facing=south"), 2u32)];
    let bs = BlockState::build_variants(&records).unwrap();
    assert_eq!(bs.get(&vec![s("facing=north")]), vec![1]);
    assert_eq!(bs.get(&vec![s("facing=south")]), vec![2]);
    // an unregistered atom contributes nothing: mask zero has no entry here
    assert_eq!(bs.get(&vec![s("facing=east")]), Vec::<u32>::new());
    // at most one rule fires
    assert!(bs.get(&vec![s("facing=north"), s("facing=south")]).is_empty());
}

#[test]
fn variants_empty_condition_is_default() {
    let records = vec![(s(""), 9u32)];
    let bs = BlockState::build_variants(&records).unwrap();
    assert_eq!(bs.get(&Vec::new()), vec![9]);
    assert_eq!(bs.get(&vec![s("facing=east")]), vec![9]);
}

#[test]
fn variants_default_fires_for_unmatched_environments() {
    // a default entry beside conditional ones answers exact mask zero
    let records = vec![(s(""), 9u32), (s("facing=north"), 1u32)];
    let bs = BlockState::build_variants(&records).unwrap();
    assert_eq!(bs.get(&vec![s("facing=north")]), vec![1]);
    assert_eq!(bs.get(&vec![s("facing=east")]), vec![9]);
    assert_eq!(bs.get(&Vec::new()), vec![9]);
}

#[test]
fn variants_conjunction_needs_every_atom() {
    let records = vec![(s("facing=north,half=top"), 3u32)];
    let bs = BlockState::build_variants(&records).unwrap();
    assert_eq!(bs.get(&vec![s("facing=north"), s("half=top")]), vec![3]);
    assert!(bs.get(&vec![s("facing=north")]).is_empty());
    assert!(bs.get(&vec![s("half=top")]).is_empty());
}

#[test]
fn variants_duplicate_mask_is_rejected() {
    let records = vec![(s("a=1,b=2"), 1u32), (s("b=2,a=1"), 2u32)];
    assert!(matches!(BlockState::build_variants(&records), Err(BuildError::DuplicateRule)));
    let twice_empty = vec![(s(""), 1u32), (s(""), 2u32)];
    assert!(matches!(BlockState::build_variants(&twice_empty), Err(BuildError::DuplicateRule)));
}

#[test]
fn variants_malformed_condition_is_rejected() {
    let records = vec![(s("facing=north,broken"), 1u32)];
    match BlockState::build_variants(&records) {
        Err(BuildError::MalformedCondition(seg)) => assert_eq!(seg, "broken"),
        Err(other) => panic!("unexpected: {:?}", other),
        Ok(_) => panic!("unexpected success"),
    }
}

#[test]
fn variants_capacity_is_rejected() {
    let mut records = Vec::new();
    let mut cond = String::new();
    for i in 0..65 {
        if i > 0 {
            cond.push(',');
        }
        cond.push_str(&format!("k{}=v", i));
    }
    records.push((cond, 1u32));
    assert!(matches!(BlockState::build_variants(&records), Err(BuildError::CapacityExceeded)));
}

#[test]
fn multipart_or_set_expands_alternatives() {
    // part with when {"north": "true|false"}
    let records = vec![
        MultipartRecord {
            when: Some(WhenRecord::And(vec![(s("north"), s("true|false"))])),
            apply: 5u32,
        },
    ];
    let bs = BlockState::build_multipart(&records).unwrap();
    assert_eq!(bs.get(&vec![s("north=true")]), vec![5]);
    assert_eq!(bs.get(&vec![s("north=false")]), vec![5]);
    // neither alternative present: the part does not fire
    assert!(bs.get(&vec![s("east=true")]).is_empty());
    assert!(bs.get(&Vec::new()).is_empty());
}

#[test]
fn multipart_unconditional_always_fires() {
    let records = vec![
        MultipartRecord { when: None, apply: 1u32 },
        MultipartRecord {
            when: Some(WhenRecord::And(vec![(s("north"), s("true"))])),
            apply: 2u32,
        },
    ];
    let bs = BlockState::build_multipart(&records).unwrap();
    assert_eq!(bs.get(&Vec::new()), vec![1]);
    assert_eq!(bs.get(&vec![s("east=maybe")]), vec![1]);
    // declaration order: the unconditional part was declared first
    assert_eq!(bs.get(&vec![s("north=true")]), vec![1, 2]);
}

#[test]
fn multipart_concatenates_in_declaration_order() {
    let records = vec![
        MultipartRecord {
            when: Some(WhenRecord::And(vec![(s("a"), s("1"))])),
            apply: 10u32,
        },
        MultipartRecord {
            when: Some(WhenRecord::And(vec![(s("b"), s("1"))])),
            apply: 20u32,
        },
        MultipartRecord { when: None, apply: 30u32 },
    ];
    let bs = BlockState::build_multipart(&records).unwrap();
    assert_eq!(bs.get(&vec![s("a=1"), s("b=1")]), vec![10, 20, 30]);
    assert_eq!(bs.get(&vec![s("b=1")]), vec![20, 30]);
    assert_eq!(bs.get(&vec![s("a=1")]), vec![10, 30]);
    assert_eq!(bs.get(&Vec::new()), vec![30]);
}

#[test]
fn multipart_or_clause_fires_on_any_alternative() {
    let records = vec![
        MultipartRecord {
            when: Some(WhenRecord::Or(vec![
                vec![(s("north"), s("true"))],
                vec![(s("south"), s("true"))],
            ])),
            apply: 4u32,
        },
    ];
    let bs = BlockState::build_multipart(&records).unwrap();
    assert_eq!(bs.get(&vec![s("north=true")]), vec![4]);
    assert_eq!(bs.get(&vec![s("south=true")]), vec![4]);
    assert!(bs.get(&vec![s("west=true")]).is_empty());
}

#[test]
fn multipart_cross_product_of_or_sets() {
    let records = vec![
        MultipartRecord {
            when: Some(WhenRecord::And(vec![
                (s("n"), s("a|b")),
                (s("m"), s("x")),
            ])),
            apply: 6u32,
        },
    ];
    let bs = BlockState::build_multipart(&records).unwrap();
    assert_eq!(bs.get(&vec![s("n=a"), s("m=x")]), vec![6]);
    assert_eq!(bs.get(&vec![s("n=b"), s("m=x")]), vec![6]);
    assert!(bs.get(&vec![s("n=a")]).is_empty());
    assert!(bs.get(&vec![s("m=x")]).is_empty());
}

#[test]
fn multipart_colliding_parts_accumulate() {
    // two parts with the same exact condition share one sub-mask entry
    let records = vec![
        MultipartRecord {
            when: Some(WhenRecord::And(vec![(s("up"), s("true"))])),
            apply: 1u32,
        },
        MultipartRecord {
            when: Some(WhenRecord::And(vec![(s("up"), s("true"))])),
            apply: 2u32,
        },
    ];
    let bs = BlockState::build_multipart(&records).unwrap();
    // both groups hit the shared accumulated list
    assert_eq!(bs.get(&vec![s("up=true")]), vec![1, 2, 1, 2]);
}

#[test]
fn multipart_capacity_is_rejected() {
    let mut pairs = Vec::new();
    for i in 0..65 {
        pairs.push((format!("k{}", i), s("v")));
    }
    let records = vec![MultipartRecord { when: Some(WhenRecord::And(pairs)), apply: 1u32 }];
    assert!(matches!(BlockState::build_multipart(&records), Err(BuildError::CapacityExceeded)));
}

#[test]
fn multipart_fills_the_mask_width_exactly() {
    // 64 distinct atoms fit; the build is owed success
    let mut pairs = Vec::new();
    for i in 0..64 {
        pairs.push((format!("k{}", i), s("v")));
    }
    let records = vec![MultipartRecord { when: Some(WhenRecord::And(pairs)), apply: 1u32 }];
    let bs = BlockState::build_multipart(&records).unwrap();
    let mut env = Vec::new();
    for i in 0..64 {
        env.push(format!("k{}=v", i));
    }
    assert_eq!(bs.get(&env), vec![1]);
}

#[test]
fn manual_groups_follow_start_and_insert() {
    let mut bs: BlockState<u32> = BlockState::new();
    // inserting before any group registers atoms but stores nothing
    assert_eq!(bs.insert_group(&vec![s("a=1")], 7), None);
    bs.start_group();
    assert_eq!(bs.insert_group(&vec![s("a=1")], 7), Some(1));
    assert_eq!(bs.get(&vec![s("a=1")]), vec![7]);
}
