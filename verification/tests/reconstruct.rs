use label_extract::annotation::Annotation;
use label_extract::batch::{BatchCollector, ItemErrorKind, ItemFailure};
use label_extract::geometry::{BoundingBox, BoundingBoxVertices, Vertex};
use label_extract::lexicon::Lexicon;
use label_extract::reconstruct::{
    merge_pass, reconstruct, sort_frags, SortKey, CROP_HEIGHT, CROP_SCALE_PERCENT, CROP_WIDTH,
};

fn bx(left: i32, top: i32, right: i32, bottom: i32) -> BoundingBox {
    BoundingBox {
        vertices: BoundingBoxVertices {
            sw: Vertex { x: left, y: bottom },
            se: Vertex { x: right, y: bottom },
            ne: Vertex { x: right, y: top },
            nw: Vertex { x: left, y: top },
        },
    }
}

fn ann(desc: &str, left: i32, top: i32, right: i32, bottom: i32) -> Annotation {
    Annotation {
        locale: "en".to_string(),
        description: desc.to_string(),
        bounding_poly: bx(left, top, right, bottom),
    }
}

fn lex(words: &[&str]) -> Lexicon {
    Lexicon::new(words.iter().map(|w| w.to_string()).collect())
}

fn descriptions(v: &[Annotation]) -> Vec<String> {
    v.iter().map(|a| a.description.clone()).collect()
}

#[test]
fn merge_pass_touching_fragments_join_without_separator() {
    // Gap of 5 (<= 10), top difference 50 (<= 100): one OCR-split word.
    let a = ann("ab", 100, 1000, 400, 940);
    let b = ann("cd", 405, 1050, 700, 990);
    let merged = merge_pass(vec![a, b]);
    assert_eq!(descriptions(&merged), vec!["abcd"]);
    assert_eq!(merged[0].bounding_poly.left(), 100);
    assert_eq!(merged[0].bounding_poly.right(), 700);
}

#[test]
fn merge_pass_near_fragments_join_with_space() {
    // Gap of 50 (in (10, 100]): two words of one line.
    let a = ann("ab", 100, 1000, 400, 940);
    let b = ann("cd", 450, 1000, 700, 940);
    let merged = merge_pass(vec![a, b]);
    assert_eq!(descriptions(&merged), vec!["ab cd"]);
}

#[test]
fn merge_pass_wide_gap_never_merges() {
    // Gap of 150 (> 100): unrelated columns.
    let a = ann("ab", 100, 1000, 400, 940);
    let b = ann("cd", 550, 1000, 700, 940);
    let merged = merge_pass(vec![a, b]);
    assert_eq!(descriptions(&merged), vec!["ab", "cd"]);
}

#[test]
fn merge_pass_large_top_difference_never_merges() {
    // Top difference 150 (> 100): different lines even though x-adjacent.
    let a = ann("ab", 100, 1000, 400, 940);
    let b = ann("cd", 405, 1150, 700, 1090);
    let merged = merge_pass(vec![a, b]);
    assert_eq!(descriptions(&merged), vec!["ab", "cd"]);
}

#[test]
fn merge_pass_is_transitive_in_one_pass() {
    let a = ann("one", 100, 1000, 300, 940);
    let b = ann("two", 350, 1000, 500, 940);
    let c = ann("three", 550, 1000, 700, 940);
    let merged = merge_pass(vec![a, b, c]);
    assert_eq!(descriptions(&merged), vec!["one two three"]);
}

#[test]
fn tolerant_sort_gives_reading_order_despite_jitter() {
    // The right-hand fragment sits 20 units higher; the tolerant top
    // comparator treats the row as one, so left-to-right order wins.
    let right = ann("second", 600, 1470, 800, 1410);
    let left = ann("first", 100, 1450, 300, 1390);
    let by_left = sort_frags(vec![right, left], SortKey::ByLeft, 50);
    let ordered = sort_frags(by_left, SortKey::ByTop, 50);
    assert_eq!(descriptions(&ordered), vec!["first", "second"]);
}

#[test]
fn sort_is_stable_for_equal_keys() {
    let a = ann("earlier", 100, 1000, 300, 940);
    let b = ann("later", 100, 1000, 300, 940);
    let c = ann("lowest", 100, 500, 300, 440);
    let ordered = sort_frags(vec![a, b, c], SortKey::ByTop, 0);
    assert_eq!(descriptions(&ordered), vec!["lowest", "earlier", "later"]);
}

#[test]
fn exact_sort_orders_by_key() {
    let a = ann("low", 100, 900, 300, 840);
    let b = ann("high", 100, 4400, 300, 4340);
    let c = ann("mid", 100, 2500, 300, 2440);
    let ordered = sort_frags(vec![b, a, c], SortKey::ByTop, 0);
    assert_eq!(descriptions(&ordered), vec!["low", "mid", "high"]);
}

/// Seven fragments inside the three buyer bands: one section header and
/// six values; the `BUYER` marker itself is boilerplate and drops out.
fn buyer_scenario(fifth_value: &str) -> Vec<Annotation> {
    vec![
        ann("BUYER", 1000, 1450, 1300, 1390),
        ann("alpha", 100, 1300, 450, 1240),
        ann("bravo", 100, 1450, 450, 1390),
        ann("china", 100, 1600, 450, 1540),
        ann("delta", 100, 3050, 450, 2990),
        ann("echo", 100, 3200, 450, 3140),
        ann(fifth_value, 100, 3350, 450, 3290),
        ann("quality", 100, 4400, 450, 4340),
    ]
}

fn base_words() -> Vec<&'static str> {
    vec!["alpha", "bravo", "china", "delta", "echo", "fox", "quality"]
}

#[test]
fn buyer_variant_end_to_end() {
    let l = lex(&base_words());
    let out = reconstruct(buyer_scenario("fox"), &l).expect("count matches");
    assert_eq!(out.header, "quality");
    assert_eq!(
        out.lines,
        vec![
            "quality - alpha",
            "quality - bravo",
            "quality - china",
            "quality - delta",
            "quality - echo",
            "quality - fox",
        ]
    );
    assert_eq!(out.crops.len(), 6);
    for (i, crop) in out.crops.iter().enumerate() {
        assert_eq!(crop.index, i);
        assert_eq!(crop.width, CROP_WIDTH);
        assert_eq!(crop.height, CROP_HEIGHT);
        assert_eq!(crop.scale_percent, CROP_SCALE_PERCENT);
        assert_eq!(crop.x, 450 - 850);
    }
    // First value fragment: top 1300, bottom 1240.
    assert_eq!(out.crops[0].y, 1240 - 1160);
    assert_eq!(out.crops[5].y, 3290 - 1160);
}

#[test]
fn fallback_skipped_when_count_already_matches() {
    // "zzqx" is in no word list, yet the initial count is already exactly
    // expected + 1, so the dictionary fallback must not run.
    let l = lex(&base_words());
    assert!(!l.is_known("zzqx"));
    let out = reconstruct(buyer_scenario("zzqx"), &l).expect("count matches without fallback");
    assert_eq!(out.lines[5], "quality - zzqx");
}

#[test]
fn fallback_restores_expected_count() {
    // An eighth surviving fragment breaks the count; the fallback removes
    // exactly the one with an unknown word and the count matches again.
    let mut frags = buyer_scenario("fox");
    frags.push(ann("zzqx", 100, 1150, 450, 1090));
    let l = lex(&base_words());
    let out = reconstruct(frags, &l).expect("fallback restores the count");
    assert_eq!(out.lines.len(), 6);
    assert!(out.lines.iter().all(|line| !line.contains("zzqx")));
}

#[test]
fn inconclusive_when_fallback_cannot_fix_count() {
    // Default variant: twelve fragments survive the geometric stages where
    // ten are expected; the fallback removes only the unknown word, leaving
    // eleven, so reconstruction yields no output.
    let words = vec![
        "one", "two", "three", "four", "five", "six", "seven", "eight", "nine", "ten", "eleven",
        "quality",
    ];
    let tops = [1000, 1130, 1300, 1480, 2400, 2550, 2750, 2900, 3900, 4100, 4420, 4790];
    let mut frags = Vec::new();
    for (i, top) in tops.iter().enumerate() {
        let desc = if i == 4 { "zzqx" } else { words[i] };
        frags.push(ann(desc, 100, *top, 450, *top - 60));
    }
    let l = lex(&words);
    assert!(reconstruct(frags, &l).is_none());
}

#[test]
fn no_output_for_empty_input() {
    let l = lex(&base_words());
    assert!(reconstruct(Vec::new(), &l).is_none());
}

#[test]
fn one_failing_item_leaves_siblings_untouched() {
    // Three identifiers; the middle one hits a collaborator failure while
    // cropping. The batch reports exactly that one tagged failure and the
    // other two still yield their full transcripts.
    let l = lex(&base_words());
    let ids = ["0230_001", "0230_002", "0230_003"];
    let mut transcripts = Vec::new();
    let mut collector = BatchCollector::new();
    for id in ids {
        let out = reconstruct(buyer_scenario("fox"), &l).expect("count matches");
        if id == "0230_002" {
            collector.record(ItemFailure {
                identifier: id.to_string(),
                kind: ItemErrorKind::CollaboratorFailure,
                detail: "crop tool exited unsuccessfully".to_string(),
            });
        } else {
            transcripts.push((id, out.lines));
        }
    }
    let errs = collector.into_result().expect_err("one failure");
    assert_eq!(errs.len(), 1);
    assert_eq!(errs[0].identifier, "0230_002");
    assert_eq!(transcripts.len(), 2);
    for (_, lines) in &transcripts {
        assert_eq!(lines.len(), 6);
        assert_eq!(lines[0], "quality - alpha");
    }
}

#[test]
fn band_and_noise_fragments_are_discarded() {
    // Stamped codes (all uppercase/digits), fixed noise tokens, overwide
    // boxes and out-of-band fragments must all vanish; if any survived,
    // the count check would fail and no output could be produced.
    let mut frags = buyer_scenario("fox");
    frags.push(ann("AB12", 100, 1450, 450, 1390));
    frags.push(ann("Supplier", 100, 1450, 450, 1390));
    frags.push(ann("wide", 100, 1450, 700, 1390));
    frags.push(ann("floating", 100, 2300, 450, 2240));
    let l = lex(&base_words());
    let out = reconstruct(frags, &l).expect("extras are all filtered out");
    assert_eq!(out.lines.len(), 6);
}
