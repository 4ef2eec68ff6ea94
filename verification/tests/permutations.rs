use social_context::inputs::Triple;
use social_context::utils::{
    generate_link_path_permutations, get_link_permutation_by, LinkPermutation,
};

const TRIPLE_SOURCE: &str = "source";
const TRIPLE_TARGET: &str = "target";
const TRIPLE_PREDICATE: &str = "predicate";
const WILDCARD: &str = "*";

#[test]
fn generate_link_path_permutations_works() {
    // The triple contains source, target, predicate
    let triple = Triple {
        subject: Some(TRIPLE_SOURCE.to_string()),
        object: Some(TRIPLE_TARGET.to_string()),
        predicate: Some(TRIPLE_PREDICATE.to_string()),
    };
    let result = generate_link_path_permutations(&triple).unwrap();
    assert_eq!(result.len(), 6);
    assert_eq!(
        result[0],
        LinkPermutation::new(TRIPLE_SOURCE.to_string(), WILDCARD.to_string())
    );
    assert_eq!(
        result[1],
        LinkPermutation::new(TRIPLE_TARGET.to_string(), WILDCARD.to_string())
    );
    assert_eq!(
        result[2],
        LinkPermutation::new(TRIPLE_PREDICATE.to_string(), WILDCARD.to_string())
    );
    assert_eq!(
        result[3],
        LinkPermutation::new(TRIPLE_SOURCE.to_string(), TRIPLE_TARGET.to_string())
    );
    assert_eq!(
        result[4],
        LinkPermutation::new(TRIPLE_SOURCE.to_string(), TRIPLE_PREDICATE.to_string())
    );
    assert_eq!(
        result[5],
        LinkPermutation::new(TRIPLE_TARGET.to_string(), TRIPLE_PREDICATE.to_string())
    );

    // The triple contains source, target
    let triple = Triple {
        subject: Some(TRIPLE_SOURCE.to_string()),
        object: Some(TRIPLE_TARGET.to_string()),
        predicate: None,
    };
    let result = generate_link_path_permutations(&triple).unwrap();
    assert_eq!(result.len(), 3);
    assert_eq!(
        result[0],
        LinkPermutation::new(TRIPLE_SOURCE.to_string(), TRIPLE_TARGET.to_string())
    );
    assert_eq!(
        result[1],
        LinkPermutation::new(TRIPLE_SOURCE.to_string(), WILDCARD.to_string())
    );
    assert_eq!(
        result[2],
        LinkPermutation::new(TRIPLE_TARGET.to_string(), WILDCARD.to_string())
    );

    // The triple contains source, predicate
    let triple = Triple {
        subject: Some(TRIPLE_SOURCE.to_string()),
        object: None,
        predicate: Some(TRIPLE_PREDICATE.to_string()),
    };
    let result = generate_link_path_permutations(&triple).unwrap();
    assert_eq!(result.len(), 3);
    assert_eq!(
        result[0],
        LinkPermutation::new(TRIPLE_SOURCE.to_string(), TRIPLE_PREDICATE.to_string())
    );
    assert_eq!(
        result[1],
        LinkPermutation::new(TRIPLE_SOURCE.to_string(), WILDCARD.to_string())
    );
    assert_eq!(
        result[2],
        LinkPermutation::new(TRIPLE_PREDICATE.to_string(), WILDCARD.to_string())
    );

    // The triple contains target, predicate
    let triple = Triple {
        subject: None,
        object: Some(TRIPLE_TARGET.to_string()),
        predicate: Some(TRIPLE_PREDICATE.to_string()),
    };
    let result = generate_link_path_permutations(&triple).unwrap();
    assert_eq!(result.len(), 3);
    assert_eq!(
        result[0],
        LinkPermutation::new(TRIPLE_TARGET.to_string(), TRIPLE_PREDICATE.to_string())
    );
    assert_eq!(
        result[1],
        LinkPermutation::new(TRIPLE_TARGET.to_string(), WILDCARD.to_string())
    );
    assert_eq!(
        result[2],
        LinkPermutation::new(TRIPLE_PREDICATE.to_string(), WILDCARD.to_string())
    );

    // The triple contains source
    let triple = Triple {
        subject: Some(TRIPLE_SOURCE.to_string()),
        object: None,
        predicate: None,
    };
    let result = generate_link_path_permutations(&triple).unwrap();
    assert_eq!(result.len(), 1);
    assert_eq!(
        result[0],
        LinkPermutation::new(TRIPLE_SOURCE.to_string(), WILDCARD.to_string())
    );

    // The triple contains target
    let triple = Triple {
        subject: None,
        object: Some(TRIPLE_TARGET.to_string()),
        predicate: None,
    };
    let result = generate_link_path_permutations(&triple).unwrap();
    assert_eq!(result.len(), 1);
    assert_eq!(
        result[0],
        LinkPermutation::new(TRIPLE_TARGET.to_string(), WILDCARD.to_string())
    );

    // The triple contains predicate
    let triple = Triple {
        subject: None,
        object: None,
        predicate: Some(TRIPLE_PREDICATE.to_string()),
    };
    let result = generate_link_path_permutations(&triple).unwrap();
    assert_eq!(result.len(), 1);
    assert_eq!(
        result[0],
        LinkPermutation::new(TRIPLE_PREDICATE.to_string(), WILDCARD.to_string())
    );

    // The triple contains nothing
    let triple = Triple {
        subject: None,
        object: None,
        predicate: None,
    };
    let result = generate_link_path_permutations(&triple);
    assert!(result.is_err());
}

#[test]
fn get_link_permutation_by_triple_works() {
    // The triple contains source, target, predicate
    let triple = Triple {
        subject: Some(TRIPLE_SOURCE.to_string()),
        object: Some(TRIPLE_TARGET.to_string()),
        predicate: Some(TRIPLE_PREDICATE.to_string()),
    };
    let result = get_link_permutation_by(triple);
    assert_eq!(
        result,
        LinkPermutation::new(TRIPLE_SOURCE.to_string(), TRIPLE_TARGET.to_string())
    );

    // The triple contains source, target
    let triple = Triple {
        subject: Some(TRIPLE_SOURCE.to_string()),
        object: Some(TRIPLE_TARGET.to_string()),
        predicate: None,
    };
    let result = get_link_permutation_by(triple);
    assert_eq!(
        result,
        LinkPermutation::new(TRIPLE_SOURCE.to_string(), TRIPLE_TARGET.to_string())
    );

    // The triple contains source, predicate
    let triple = Triple {
        subject: Some(TRIPLE_SOURCE.to_string()),
        object: None,
        predicate: Some(TRIPLE_PREDICATE.to_string()),
    };
    let result = get_link_permutation_by(triple);
    assert_eq!(
        result,
        LinkPermutation::new(TRIPLE_SOURCE.to_string(), TRIPLE_PREDICATE.to_string())
    );

    // The triple contains target, predicate
    let triple = Triple {
        subject: None,
        object: Some(TRIPLE_TARGET.to_string()),
        predicate: Some(TRIPLE_PREDICATE.to_string()),
    };
    let result = get_link_permutation_by(triple);
    assert_eq!(
        result,
        LinkPermutation::new(TRIPLE_TARGET.to_string(), TRIPLE_PREDICATE.to_string())
    );

    // The triple contains source
    let triple = Triple {
        subject: Some(TRIPLE_SOURCE.to_string()),
        object: None,
        predicate: None,
    };
    let result = get_link_permutation_by(triple);
    assert_eq!(
        result,
        LinkPermutation::new(TRIPLE_SOURCE.to_string(), WILDCARD.to_string())
    );

    // The triple contains target
    let triple = Triple {
        subject: None,
        object: Some(TRIPLE_TARGET.to_string()),
        predicate: None,
    };
    let result = get_link_permutation_by(triple);
    assert_eq!(
        result,
        LinkPermutation::new(TRIPLE_TARGET.to_string(), WILDCARD.to_string())
    );

    // The triple contains predicate
    let triple = Triple {
        subject: None,
        object: None,
        predicate: Some(TRIPLE_PREDICATE.to_string()),
    };
    let result = get_link_permutation_by(triple);
    assert_eq!(
        result,
        LinkPermutation::new(TRIPLE_PREDICATE.to_string(), WILDCARD.to_string())
    );

    // The triple contains nothing
    let triple = Triple {
        subject: None,
        object: None,
        predicate: None,
    };
    let result = get_link_permutation_by(triple);
    assert_eq!(
        result,
        LinkPermutation::new(WILDCARD.to_string(), WILDCARD.to_string())
    );
}
