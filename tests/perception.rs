use plan_a::debug::DebugData;
use plan_a::def::TextOperation;
use plan_a::perception::{image_match_region, ref_match_region, screen_confirmed, HALO};

#[test]
fn ocr_operation_matrix() {
    let text = "Hello World";
    assert!(!TextOperation::Exact.run(text, "Hello"));
    assert!(TextOperation::Contains.run(text, "lo Wo"));
    assert!(TextOperation::StartsWith.run(text, "Hello"));
    assert!(TextOperation::EndsWith.run(text, "World"));
}

#[test]
fn ocr_operations_reject_what_is_absent() {
    let text = "Hello World";
    assert!(TextOperation::Exact.run(text, "Hello World"));
    assert!(!TextOperation::Contains.run(text, "low"));
    assert!(!TextOperation::StartsWith.run(text, "World"));
    assert!(!TextOperation::EndsWith.run(text, "Hello"));
    assert!(!TextOperation::StartsWith.run("Hi", "Hi there"));
}

#[test]
fn text_operation_laws_on_examples() {
    // Exact is equality.
    assert!(TextOperation::Exact.run("abc", "abc"));
    assert!(!TextOperation::Exact.run("abc", "abd"));
    // Contains is reflexive and transitive.
    assert!(TextOperation::Contains.run("abc", "abc"));
    assert!(TextOperation::Contains.run("", ""));
    assert!(TextOperation::Contains.run("xabcy", "abc"));
    assert!(TextOperation::Contains.run("abc", "b"));
    assert!(TextOperation::Contains.run("xabcy", "b"));
    // Same length, begins and ends with it: equal.
    assert!(TextOperation::StartsWith.run("aba", "aba") && TextOperation::EndsWith.run("aba", "aba"));
    assert!(TextOperation::Exact.run("aba", "aba"));
    // Non-ASCII text is compared by characters.
    assert!(TextOperation::Contains.run("ステージ 3-1", "ジ 3"));
    assert!(TextOperation::EndsWith.run("ステージ 3-1", "3-1"));
}

#[test]
fn halo_grows_region_and_stops_at_zero() {
    assert_eq!(HALO, 20);
    assert_eq!(ref_match_region((0, 0, 50, 60)), (0, 0, 90, 100));
    assert_eq!(ref_match_region((10, 30, 5, 5)), (0, 10, 45, 45));
    assert_eq!(ref_match_region((100, 200, 30, 40)), (80, 180, 70, 80));
    assert_eq!(image_match_region((0, 0), 100, 100), (0, 0, 140, 140));
    assert_eq!(image_match_region((25, 19), 10, 20), (5, 0, 50, 60));
}

#[test]
fn all_identifiers_must_match() {
    assert!(screen_confirmed(&vec![]));
    assert!(screen_confirmed(&vec![true, true]));
    assert!(!screen_confirmed(&vec![true, false, true]));
    assert!(!screen_confirmed(&vec![false]));
}

#[test]
fn debug_log_collects_entries() {
    let mut d = DebugData::new();
    d.push_text("Ref match:");
    d.push_image_path("./temp/1.png".to_string());
    assert_eq!(d.image_count(), 0);
    assert_eq!(d.next_image_number(), 1);
    assert_eq!(d.next_image_number(), 2);
    assert_eq!(d.image_count(), 2);
}
