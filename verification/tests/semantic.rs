use rich_media_viewer::semantic::{
    join_hits, max_hits, media_ids, score_key, search_hits, SemanticCandidate, TopHits,
};

fn c(score: f64, media_id: i64) -> SemanticCandidate {
    SemanticCandidate { score_bits: score.to_bits(), media_id }
}

fn ids(hits: &[SemanticCandidate]) -> Vec<i64> {
    hits.iter().map(|h| h.media_id).collect()
}

#[test]
fn score_ranks_compare_as_the_numbers_do() {
    let samples = [f64::NEG_INFINITY, -1.0, -1e-310, -0.0, 0.0, 1e-310, 0.42, 1.0, f64::INFINITY];
    for a in samples {
        for b in samples {
            let (x, y) = (score_key(a.to_bits()).unwrap(), score_key(b.to_bits()).unwrap());
            assert_eq!(x < y, a < b, "{a} {b}");
            assert_eq!(x == y, a == b, "{a} {b}");
        }
    }
    assert_eq!(score_key(f64::NAN.to_bits()), None);
    assert_eq!(score_key((-f64::NAN).to_bits()), None);
}

#[test]
fn hit_limits_keep_to_their_bounds() {
    assert_eq!(max_hits(None), 50);
    assert_eq!(max_hits(Some(0)), 1);
    assert_eq!(max_hits(Some(-9)), 1);
    assert_eq!(max_hits(Some(7)), 7);
    assert_eq!(max_hits(Some(201)), 200);
}

#[test]
fn best_hits_come_first() {
    let all = vec![c(0.1, 1), c(0.9, 2), c(0.5, 3), c(0.7, 4)];
    assert_eq!(ids(&search_hits(&all, None)), vec![2, 4, 3, 1]);
    assert_eq!(ids(&search_hits(&all, Some(2))), vec![2, 4]);
    assert_eq!(ids(&search_hits(&all, Some(1))), vec![2]);
    assert_eq!(ids(&search_hits(&Vec::new(), None)), Vec::<i64>::new());
}

#[test]
fn equal_scores_keep_their_order() {
    let all = vec![c(0.5, 1), c(0.5, 2), c(0.5, 3)];
    assert_eq!(ids(&search_hits(&all, None)), vec![1, 2, 3]);
    assert_eq!(ids(&search_hits(&all, Some(2))), vec![1, 2]);
    let replaced = vec![c(0.5, 1), c(0.5, 2), c(0.6, 3), c(0.5, 4)];
    assert_eq!(ids(&search_hits(&replaced, Some(2))), vec![3, 2]);
}

#[test]
fn nothing_left_out_scores_more_than_what_is_kept() {
    let mut all = Vec::new();
    let mut x: u64 = 7;
    for id in 0..500i64 {
        x = x.wrapping_mul(6364136223846793005).wrapping_add(1442695040888963407);
        all.push(c(((x >> 33) % 1000) as f64 / 1000.0, id));
    }
    let hits = search_hits(&all, Some(60));
    assert_eq!(hits.len(), 60);
    let worst = f64::from_bits(hits[59].score_bits);
    for w in hits.windows(2) {
        assert!(f64::from_bits(w[0].score_bits) >= f64::from_bits(w[1].score_bits));
    }
    for candidate in &all {
        let kept = hits.iter().any(|h| h.media_id == candidate.media_id);
        assert!(kept || f64::from_bits(candidate.score_bits) <= worst);
    }
}

#[test]
fn scores_that_are_no_numbers_do_not_replace_others() {
    let all = vec![c(0.2, 1), c(0.3, 2), c(f64::NAN, 3)];
    assert_eq!(ids(&search_hits(&all, Some(2))), vec![2, 1]);
    assert_eq!(ids(&search_hits(&all, Some(5))), vec![2, 1, 3]);
}

#[test]
fn hits_can_be_offered_one_by_one() {
    let all = vec![c(0.1, 1), c(0.9, 2), c(0.5, 3), c(0.7, 4)];
    let mut top = TopHits::new(Some(3));
    for candidate in &all {
        top.offer(*candidate);
    }
    assert_eq!(ids(&top.finish()), ids(&search_hits(&all, Some(3))));
}

#[test]
fn hits_are_joined_with_their_rows() {
    let hits = vec![c(0.9, 30), c(0.8, 10), c(0.7, 99), c(0.6, 30)];
    assert_eq!(media_ids(&hits), vec![30, 10, 99, 30]);
    let joined: Vec<(i64, usize)> = join_hits(&hits, &vec![10, 30, 20])
        .iter()
        .map(|(h, r)| (h.media_id, *r))
        .collect();
    assert_eq!(joined, vec![(30, 1), (10, 0), (30, 1)]);
}
