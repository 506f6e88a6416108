use relattn::attention::{LayerState, XLNetConfig, XLNetRelativeAttention};
use relattn::cache::LayerCache;
use relattn::error::AttentionError;

#[test]
fn empty_state_holds_nothing() {
    let state = LayerState::empty();
    assert_eq!(state.prev_content, vec![0]);
    assert!(!state.has_content());
}

#[test]
fn state_with_one_extent_holds_nothing() {
    assert!(!LayerState { prev_content: vec![] }.has_content());
    assert!(!LayerState { prev_content: vec![9] }.has_content());
    assert!(LayerState { prev_content: vec![9, 1] }.has_content());
    assert!(LayerState { prev_content: vec![5, 2, 8] }.has_content());
}

#[test]
fn state_grows_by_what_goes_through() {
    let start = LayerState::empty();
    let first = start.extended(&vec![3, 2, 8]).unwrap();
    assert_eq!(first.prev_content, vec![3, 2, 8]);
    let second = first.extended(&vec![1, 2, 8]).unwrap();
    assert_eq!(second.prev_content, vec![4, 2, 8]);
    let third = second.extended(&vec![1, 2, 8]).unwrap();
    assert_eq!(third.prev_content, vec![5, 2, 8]);
    // the states before are left as they were
    assert_eq!(start.prev_content, vec![0]);
    assert_eq!(first.prev_content, vec![3, 2, 8]);
    assert_eq!(second.prev_content, vec![4, 2, 8]);
}

#[test]
fn state_refuses_input_that_does_not_fit() {
    let state = LayerState { prev_content: vec![5, 2, 8] };
    for h in [vec![1, 2], vec![1, 3, 8], vec![1, 2, 4], vec![-1, 2, 8], vec![i64::MAX, 2, 8]] {
        assert_eq!(state.extended(&h).err(), Some(AttentionError::ShapeMismatch));
    }
    for prev_content in [vec![5, 2], vec![-5, 2, 8], vec![5, 2, 8, 1]] {
        let state = LayerState { prev_content };
        assert_eq!(state.extended(&vec![1, 2, 8]).err(), Some(AttentionError::ShapeMismatch));
    }
    assert_eq!(
        LayerState::empty().extended(&vec![1, -2, 8]).err(),
        Some(AttentionError::ShapeMismatch)
    );
}

#[test]
fn state_after_a_step_is_what_the_step_made_its_keys_from() {
    let config = XLNetConfig {
        d_model: 8,
        n_head: 2,
        d_head: 4,
        dropout_bits: 0,
        layer_norm_eps_bits: None,
        output_attentions: None,
    };
    let layer = XLNetRelativeAttention::new(&config).unwrap();
    let h = vec![1, 2, 8];
    let r = vec![7, 2, 8];
    let state = LayerState { prev_content: vec![5, 2, 8] };
    let after = state.extended(&h).unwrap();
    let plan = layer.forward_t(&h, None, None, None, &r, None, Some(state), None, false).unwrap();
    assert_eq!(plan.keys, after.prev_content);
}

#[test]
fn cache_starts_empty_in_every_layer() {
    let cache = LayerCache::new(3);
    assert_eq!(cache.layers(), 3);
    for layer in 0..3 {
        let state = cache.state(layer).unwrap();
        assert_eq!(state.prev_content, vec![0]);
        assert!(!state.has_content());
    }
    assert!(cache.state(3).is_none());
    assert_eq!(LayerCache::new(0).layers(), 0);
}

#[test]
fn cache_puts_a_new_state_in_place_of_the_old() {
    let mut cache = LayerCache::new(3);
    assert_eq!(cache.replace(1, LayerState { prev_content: vec![5, 2, 8] }), Ok(()));
    assert_eq!(cache.state(0).unwrap().prev_content, vec![0]);
    assert_eq!(cache.state(1).unwrap().prev_content, vec![5, 2, 8]);
    assert_eq!(cache.state(2).unwrap().prev_content, vec![0]);
    let next = cache.state(1).unwrap().extended(&vec![1, 2, 8]).unwrap();
    assert_eq!(cache.replace(1, next), Ok(()));
    assert_eq!(cache.state(1).unwrap().prev_content, vec![6, 2, 8]);
    assert_eq!(cache.layers(), 3);
}

#[test]
fn cache_refuses_a_layer_it_does_not_have() {
    let mut cache = LayerCache::new(2);
    assert_eq!(
        cache.replace(2, LayerState { prev_content: vec![5, 2, 8] }),
        Err(AttentionError::ShapeMismatch)
    );
    assert_eq!(cache.state(0).unwrap().prev_content, vec![0]);
    assert_eq!(cache.state(1).unwrap().prev_content, vec![0]);
}
