use std::collections::{HashMap, HashSet};

use jimbot::rng::{BalatroRng, Draw, PseudorandomState, RngError, SeedType};

/// The number a draw stands for.
fn value(d: Result<Draw, RngError>) -> f64 {
    match d.expect("a valid range") {
        Draw::Int(v) => v as f64,
        Draw::Unit(u) => u as f64 / 9_007_199_254_740_992.0,
    }
}

fn save_and_restore(state: &PseudorandomState) -> PseudorandomState {
    PseudorandomState::restore(&state.snapshot())
}

#[test]
fn test_pseudorandom_state_creation() {
    let state = PseudorandomState::new(SeedType::Numeric(12345));
    // The base_seed is hashed, not the raw value
    let expected_hash = PseudorandomState::new(SeedType::Numeric(12345)).base_seed();
    assert_eq!(state.base_seed(), expected_hash);
    assert_ne!(state.base_seed(), 12345);
    assert_eq!(state.global_seed(), &SeedType::Numeric(12345));
}

#[test]
fn test_pseudoseed_generation() {
    let mut state = PseudorandomState::new(SeedType::Numeric(12345));

    let seed1 = state.pseudoseed("test_key");
    assert_ne!(seed1, 0);

    let seed2 = state.pseudoseed("test_key");
    assert_ne!(seed2, seed1);

    let seed3 = state.pseudoseed("different_key");
    assert_ne!(seed3, seed1);
    assert_ne!(seed3, seed2);
}

#[test]
fn test_pseudorandom_deterministic() {
    let mut rng1 = BalatroRng::new(SeedType::Numeric(12345));
    let mut rng2 = BalatroRng::new(SeedType::Numeric(12345));

    let val1 = value(rng1.pseudorandom(SeedType::Numeric(999), Some(1), Some(10)));
    let val2 = value(rng2.pseudorandom(SeedType::Numeric(999), Some(1), Some(10)));
    assert_eq!(val1, val2);
}

#[test]
fn rng_test_pseudorandom_ranges() {
    let mut rng = BalatroRng::new(SeedType::Numeric(12345));

    let val = value(rng.pseudorandom(SeedType::Numeric(999), Some(5), Some(15)));
    assert!(val >= 5.0 && val <= 15.0);

    let val = value(rng.pseudorandom(SeedType::Numeric(999), Some(10), None));
    assert!(val >= 1.0 && val <= 10.0);

    let val = value(rng.pseudorandom(SeedType::Numeric(999), None, None));
    assert!(val >= 0.0 && val < 1.0);
}

#[test]
fn rng_test_pseudoshuffle_deterministic() {
    let mut rng = BalatroRng::new(SeedType::Numeric(12345));

    let mut vec1 = vec![1, 2, 3, 4, 5];
    let mut vec2 = vec![1, 2, 3, 4, 5];

    rng.pseudoshuffle(&mut vec1, 999);
    rng.pseudoshuffle(&mut vec2, 999);

    assert_eq!(vec1, vec2);
    assert_ne!(vec1, vec![1, 2, 3, 4, 5]);
}

#[test]
fn test_pseudorandom_element() {
    let mut rng = BalatroRng::new(SeedType::Numeric(12345));

    let collection = vec!["a", "b", "c", "d", "e"];
    let element1 = rng.pseudorandom_element(&collection, 999);
    let element2 = rng.pseudorandom_element(&collection, 999);

    assert_eq!(element1, element2);
    assert!(element1.is_some());
    assert!(collection.contains(element1.unwrap()));
}

#[test]
fn test_string_seeds() {
    let mut rng = BalatroRng::new(SeedType::String("TUTORIAL".to_string()));

    let val1 = value(rng.pseudorandom(SeedType::String("test".to_string()), Some(1), Some(10)));
    let val2 = value(rng.pseudorandom(SeedType::String("test".to_string()), Some(1), Some(10)));

    assert_eq!(val1, val2);
}

#[test]
fn test_starting_seed_generation() {
    let seed1 = BalatroRng::generate_starting_seed();
    let seed2 = BalatroRng::generate_starting_seed();

    assert_ne!(seed1, seed2);

    assert_eq!(seed1.len(), 8);
    assert_eq!(seed2.len(), 8);

    let valid_chars: Vec<char> = "ABCDEFGHIJKLMNOPQRSTUVWXYZ0123456789".chars().collect();
    for c in seed1.chars() {
        assert!(valid_chars.contains(&c));
    }
}

#[test]
fn test_card_rng_patterns() {
    let mut rng = BalatroRng::new(SeedType::Numeric(12345));

    let rarity_seed = rng.get_card_rng("rarity", 1, Some("joker"));
    let soul_seed = rng.get_card_rng("soul_", 1, Some("tarot"));
    let front_seed = rng.get_card_rng("front", 1, Some("deck"));

    assert_ne!(rarity_seed, soul_seed);
    assert_ne!(rarity_seed, front_seed);
    assert_ne!(soul_seed, front_seed);
}

#[test]
fn test_state_serialization() {
    let mut rng = BalatroRng::new(SeedType::String("TEST".to_string()));

    rng.pseudoseed("test1");
    rng.pseudoseed("test2");

    let state = rng.state().clone();
    let restored = save_and_restore(&state);

    assert_eq!(state.base_seed(), restored.base_seed());
    assert_eq!(state.global_seed(), restored.global_seed());
    assert_eq!(state.key_seeds(), restored.key_seeds());
}

#[test]
fn test_rng_deterministic_behavior() {
    let mut rng1 = BalatroRng::new(SeedType::String("TEST_SEED".to_string()));
    let mut rng2 = BalatroRng::new(SeedType::String("TEST_SEED".to_string()));

    let mut values1 = Vec::new();
    let mut values2 = Vec::new();

    for i in 0..100 {
        let seed = SeedType::Numeric(i * 1000);
        values1.push(value(rng1.pseudorandom(seed.clone(), Some(1), Some(100))));
        values2.push(value(rng2.pseudorandom(seed, Some(1), Some(100))));
    }

    assert_eq!(values1, values2, "RNG sequences should be deterministic");
}

#[test]
fn test_pseudoseed_key_advancement() {
    let mut rng = BalatroRng::new(SeedType::Numeric(12345));

    let key = "test_key";
    let seeds: Vec<u64> = (0..10).map(|_| rng.pseudoseed(key)).collect();

    for i in 0..seeds.len() {
        for j in i + 1..seeds.len() {
            assert_ne!(seeds[i], seeds[j], "Seeds should advance with each call");
        }
    }
}

#[test]
fn test_rng_test_pseudorandom_ranges() {
    let mut rng = BalatroRng::new(SeedType::Numeric(12345));

    for i in 0..100 {
        let val = value(rng.pseudorandom(SeedType::Numeric(i * 100), Some(5), Some(15)));
        assert!(val >= 5.0 && val <= 15.0, "Value {} should be in range [5, 15]", val);
    }

    for i in 0..100 {
        let val = value(rng.pseudorandom(SeedType::Numeric(i * 100), Some(20), None));
        assert!(val >= 1.0 && val <= 20.0, "Value {} should be in range [1, 20]", val);
    }

    for i in 0..100 {
        let val = value(rng.pseudorandom(SeedType::Numeric(i * 100), None, None));
        assert!(val >= 0.0 && val < 1.0, "Value {} should be in range [0, 1)", val);
    }
}

#[test]
fn test_card_generation_patterns() {
    let mut rng = BalatroRng::new(SeedType::String("GAME_SEED".to_string()));

    let rarity_seed = rng.get_card_rng("rarity", 1, Some("joker"));
    let soul_seed = rng.get_card_rng("soul_", 1, Some("tarot"));
    let front_seed = rng.get_card_rng("front", 1, Some("deck"));
    let erratic_seed = rng.get_card_rng("erratic", 1, Some("usage"));

    let seeds = vec![rarity_seed, soul_seed, front_seed, erratic_seed];
    for i in 0..seeds.len() {
        for j in i + 1..seeds.len() {
            assert_ne!(seeds[i], seeds[j], "Different patterns should produce different seeds");
        }
    }
}

#[test]
fn test_shop_and_joker_rngs() {
    let mut rng = BalatroRng::new(SeedType::Numeric(54321));

    let shop_seed_1 = rng.get_shop_rng(1, 0);
    let shop_seed_2 = rng.get_shop_rng(1, 1);
    let shop_seed_3 = rng.get_shop_rng(2, 0);

    assert_ne!(shop_seed_1, shop_seed_2);
    assert_ne!(shop_seed_1, shop_seed_3);
    assert_ne!(shop_seed_2, shop_seed_3);

    let joker_seed_1 = rng.get_joker_rng("joker_1", 0);
    let joker_seed_2 = rng.get_joker_rng("joker_1", 1);
    let joker_seed_3 = rng.get_joker_rng("joker_2", 0);

    assert_ne!(joker_seed_1, joker_seed_2);
    assert_ne!(joker_seed_1, joker_seed_3);
    assert_ne!(joker_seed_2, joker_seed_3);
}

#[test]
fn test_rng_test_pseudoshuffle_deterministic() {
    let mut rng = BalatroRng::new(SeedType::Numeric(98765));

    let seed = 42;
    let mut deck1 = vec![1, 2, 3, 4, 5, 6, 7, 8, 9, 10];
    let mut deck2 = vec![1, 2, 3, 4, 5, 6, 7, 8, 9, 10];

    rng.pseudoshuffle(&mut deck1, seed);
    rng.pseudoshuffle(&mut deck2, seed);

    assert_eq!(deck1, deck2, "Same seed should produce same shuffle");
    assert_ne!(deck1, vec![1, 2, 3, 4, 5, 6, 7, 8, 9, 10], "Deck should be shuffled");
}

#[test]
fn test_pseudorandom_element_selection() {
    let mut rng = BalatroRng::new(SeedType::Numeric(13579));

    let collection = vec!["ace", "two", "three", "four", "five"];
    let seed = 999;

    let element1 = rng.pseudorandom_element(&collection, seed);
    let element2 = rng.pseudorandom_element(&collection, seed);

    assert_eq!(element1, element2);
    assert!(element1.is_some());
    assert!(collection.contains(element1.unwrap()));
}

#[test]
fn test_string_vs_numeric_seeds() {
    let mut rng = BalatroRng::new(SeedType::String("BASE".to_string()));

    let val1 = value(rng.pseudorandom(SeedType::String("test".to_string()), Some(1), Some(100)));
    let val2 = value(rng.pseudorandom(SeedType::Numeric(12345), Some(1), Some(100)));

    assert_ne!(val1, val2, "String and numeric seeds should produce different values");
}

#[test]
fn test_tutorial_seed_behavior() {
    let mut rng = BalatroRng::new(SeedType::String("TUTORIAL".to_string()));
    let val1 = value(rng.pseudorandom(SeedType::Numeric(100), Some(1), Some(10)));

    let mut rng2 = BalatroRng::new(SeedType::String("TUTORIAL".to_string()));
    let val2 = value(rng2.pseudorandom(SeedType::Numeric(100), Some(1), Some(10)));

    assert_eq!(val1, val2, "TUTORIAL seed should be deterministic");
}

#[test]
fn test_state_persistence() {
    let mut rng = BalatroRng::new(SeedType::String("PERSISTENT".to_string()));

    for i in 0..10 {
        rng.pseudoseed(&format!("key_{}", i));
    }

    let snapshot = rng.state().snapshot();

    let next_seed = rng.pseudoseed("continuation");

    let restored_state = PseudorandomState::restore(&snapshot);
    let mut restored_rng = BalatroRng::from_state(restored_state);

    let restored_seed = restored_rng.pseudoseed("continuation");
    assert_eq!(next_seed, restored_seed, "Restored state should continue identically");
}

#[test]
fn test_die_rolls() {
    let mut rng = BalatroRng::new(SeedType::Numeric(11111));

    for i in 0..100 {
        let roll = rng.roll_die(6, i);
        assert!(roll >= 1 && roll <= 6, "6-sided die should roll 1-6, got {}", roll);
    }

    for i in 0..100 {
        let roll = rng.roll_die(20, i);
        assert!(roll >= 1 && roll <= 20, "20-sided die should roll 1-20, got {}", roll);
    }

    let seed = 999;
    let roll1 = rng.roll_die(6, seed);
    let roll2 = rng.roll_die(6, seed);
    assert_eq!(roll1, roll2, "Same seed should produce same die roll");
}

#[test]
fn test_seed_generation() {
    let seed1 = BalatroRng::generate_starting_seed();
    let seed2 = BalatroRng::generate_starting_seed();

    assert_ne!(seed1, seed2, "Generated seeds should be different");
    assert_eq!(seed1.len(), 8, "Generated seed should be 8 characters");
    assert_eq!(seed2.len(), 8, "Generated seed should be 8 characters");

    let valid_chars = "ABCDEFGHIJKLMNOPQRSTUVWXYZ0123456789";
    for c in seed1.chars() {
        assert!(valid_chars.contains(c), "Generated seed should only contain valid characters");
    }
}

#[test]
fn test_balatro_specific_scenarios() {
    let mut rng = BalatroRng::new(SeedType::String("BALATRO_TEST".to_string()));

    let mut ante_seeds = Vec::new();
    for ante in 1..=8 {
        let seed = rng.get_card_rng("rarity", ante, Some("joker"));
        ante_seeds.push(seed);
    }

    for i in 0..ante_seeds.len() {
        for j in i + 1..ante_seeds.len() {
            assert_ne!(ante_seeds[i], ante_seeds[j], "Different antes should produce different seeds");
        }
    }

    let mut reroll_seeds = Vec::new();
    for reroll in 0..5 {
        let seed = rng.get_shop_rng(1, reroll);
        reroll_seeds.push(seed);
    }

    for i in 0..reroll_seeds.len() {
        for j in i + 1..reroll_seeds.len() {
            assert_ne!(reroll_seeds[i], reroll_seeds[j], "Different rerolls should produce different seeds");
        }
    }
}

#[test]
fn test_edge_cases() {
    let mut rng = BalatroRng::new(SeedType::Numeric(0));

    let val = value(rng.pseudorandom(SeedType::Numeric(0), Some(1), Some(10)));
    assert!(val >= 1.0 && val <= 10.0);

    let val = value(rng.pseudorandom(SeedType::Numeric(u64::MAX), Some(1), Some(10)));
    assert!(val >= 1.0 && val <= 10.0);

    let val = value(rng.pseudorandom(SeedType::String("".to_string()), Some(1), Some(10)));
    assert!(val >= 1.0 && val <= 10.0);

    let collection = vec!["only"];
    let element = rng.pseudorandom_element(&collection, 123);
    assert_eq!(element, Some(&"only"));

    let empty_collection: Vec<&str> = vec![];
    let element = rng.pseudorandom_element(&empty_collection, 123);
    assert_eq!(element, None);
}

#[test]
fn test_lua_compatibility_patterns() {
    let mut rng = BalatroRng::new(SeedType::Numeric(42));

    let val = value(rng.pseudorandom(SeedType::Numeric(999), Some(10), None));
    assert!(val >= 1.0 && val <= 10.0, "Single max should work like Lua math.random(n)");

    let val = value(rng.pseudorandom(SeedType::Numeric(999), None, None));
    assert!(val >= 0.0 && val < 1.0, "No parameters should work like Lua math.random()");

    let val = value(rng.pseudorandom(SeedType::Numeric(999), Some(5), Some(15)));
    assert!(val >= 5.0 && val <= 15.0, "Min/max should work like Lua math.random(min, max)");
}

#[test]
fn test_full_game_sequence_deterministic() {
    let seed = SeedType::String("INTEGRATION_TEST".to_string());
    let mut rng1 = BalatroRng::new(seed.clone());
    let mut rng2 = BalatroRng::new(seed);

    for ante in 1..=8 {
        let shuffle_seed = rng1.get_card_rng("shuffle", ante, Some("deck"));
        let mut deck1: Vec<u32> = (1..=52).collect();
        rng1.pseudoshuffle(&mut deck1, shuffle_seed);

        let shuffle_seed2 = rng2.get_card_rng("shuffle", ante, Some("deck"));
        let mut deck2: Vec<u32> = (1..=52).collect();
        rng2.pseudoshuffle(&mut deck2, shuffle_seed2);

        assert_eq!(deck1, deck2, "Deck shuffles should be identical for ante {}", ante);
    }
}

#[test]
fn test_shop_generation_sequence() {
    let mut rng = BalatroRng::new(SeedType::String("SHOP_TEST".to_string()));

    let shop_items = vec!["joker_1", "joker_2", "joker_3", "booster_1", "booster_2"];
    let mut shop_history = HashMap::new();

    for ante in 1..=8 {
        for reroll in 0..5 {
            let shop_seed = rng.get_shop_rng(ante, reroll);
            let selected_item = rng.pseudorandom_element(&shop_items, shop_seed);

            let key = format!("ante_{}_reroll_{}", ante, reroll);
            shop_history.insert(key, selected_item.unwrap().to_string());
        }
    }

    assert_eq!(shop_history.len(), 8 * 5, "Should have 40 shop states (8 antes × 5 rerolls)");

    let mut rng2 = BalatroRng::new(SeedType::String("SHOP_TEST".to_string()));
    let mut shop_history2 = HashMap::new();

    for ante in 1..=8 {
        for reroll in 0..5 {
            let shop_seed = rng2.get_shop_rng(ante, reroll);
            let selected_item = rng2.pseudorandom_element(&shop_items, shop_seed);

            let key = format!("ante_{}_reroll_{}", ante, reroll);
            shop_history2.insert(key, selected_item.unwrap().to_string());
        }
    }

    assert_eq!(shop_history, shop_history2, "Shop generation should be deterministic");
}

#[test]
fn test_joker_trigger_sequence() {
    let mut rng = BalatroRng::new(SeedType::String("JOKER_TEST".to_string()));

    let jokers = vec!["joker_mime", "joker_juggler", "joker_drunkard", "joker_stone"];
    let mut trigger_results = Vec::new();

    for round in 1..=20 {
        for joker in &jokers {
            let trigger_seed = rng.get_joker_rng(joker, round);
            let effect_chance = (rng.unit_draw(trigger_seed) as f64 / 9_007_199_254_740_992.0) < 0.25;
            let effect_value = value(rng.pseudorandom(SeedType::Numeric(trigger_seed), Some(1), Some(10)));
            trigger_results.push((joker.to_string(), round, effect_chance, effect_value));
        }
    }

    let mut rng2 = BalatroRng::new(SeedType::String("JOKER_TEST".to_string()));
    let mut trigger_results2 = Vec::new();

    for round in 1..=20 {
        for joker in &jokers {
            let trigger_seed = rng2.get_joker_rng(joker, round);
            let effect_chance = (rng2.unit_draw(trigger_seed) as f64 / 9_007_199_254_740_992.0) < 0.25;
            let effect_value = value(rng2.pseudorandom(SeedType::Numeric(trigger_seed), Some(1), Some(10)));
            trigger_results2.push((joker.to_string(), round, effect_chance, effect_value));
        }
    }

    assert_eq!(trigger_results, trigger_results2, "Joker triggers should be deterministic");
}

#[test]
fn test_card_enhancement_generation() {
    let mut rng = BalatroRng::new(SeedType::String("ENHANCEMENT_TEST".to_string()));

    let enhancements = vec!["None", "Bonus", "Mult", "Wild", "Glass", "Steel", "Stone", "Gold", "Lucky"];
    let mut enhancement_distribution = HashMap::new();

    for ante in 1..=8 {
        for card_index in 0..52 {
            let enhancement_seed = rng.get_card_rng("enhancement", ante, Some(&format!("card_{}", card_index)));
            let enhancement = rng.pseudorandom_element(&enhancements, enhancement_seed);

            let key = format!("ante_{}_card_{}", ante, card_index);
            enhancement_distribution.insert(key, enhancement.unwrap().to_string());
        }
    }

    assert_eq!(enhancement_distribution.len(), 8 * 52, "Should have 416 card enhancements");

    let mut rng2 = BalatroRng::new(SeedType::String("ENHANCEMENT_TEST".to_string()));
    let mut enhancement_distribution2 = HashMap::new();

    for ante in 1..=8 {
        for card_index in 0..52 {
            let enhancement_seed = rng2.get_card_rng("enhancement", ante, Some(&format!("card_{}", card_index)));
            let enhancement = rng2.pseudorandom_element(&enhancements, enhancement_seed);

            let key = format!("ante_{}_card_{}", ante, card_index);
            enhancement_distribution2.insert(key, enhancement.unwrap().to_string());
        }
    }

    assert_eq!(enhancement_distribution, enhancement_distribution2, "Enhancement assignment should be deterministic");
}

#[test]
fn test_cross_system_independence() {
    let mut rng = BalatroRng::new(SeedType::String("INDEPENDENCE_TEST".to_string()));

    let shop_seed = rng.get_shop_rng(1, 0);
    let joker_seed = rng.get_joker_rng("test_joker", 1);
    let card_seed = rng.get_card_rng("rarity", 1, Some("joker"));

    let shop_value = value(rng.pseudorandom(SeedType::Numeric(shop_seed), Some(1), Some(100)));
    let joker_check = rng.unit_draw(joker_seed) < (1u64 << 52);
    let card_options = vec!["common", "uncommon", "rare"];
    let card_choice = rng.pseudorandom_element(&card_options, card_seed);

    let mut rng2 = BalatroRng::new(SeedType::String("INDEPENDENCE_TEST".to_string()));

    let joker_seed2 = rng2.get_joker_rng("test_joker", 1);
    let card_seed2 = rng2.get_card_rng("rarity", 1, Some("joker"));
    let shop_seed2 = rng2.get_shop_rng(1, 0);

    assert_eq!(shop_seed, shop_seed2, "Shop seeds should be independent of generation order");
    assert_eq!(joker_seed, joker_seed2, "Joker seeds should be independent of generation order");
    assert_eq!(card_seed, card_seed2, "Card seeds should be independent of generation order");

    let shop_value2 = value(rng2.pseudorandom(SeedType::Numeric(shop_seed2), Some(1), Some(100)));
    let joker_check2 = rng2.unit_draw(joker_seed2) < (1u64 << 52);
    let card_options2 = vec!["common", "uncommon", "rare"];
    let card_choice2 = rng2.pseudorandom_element(&card_options2, card_seed2);

    assert_eq!(shop_value, shop_value2, "Shop values should be independent");
    assert_eq!(joker_check, joker_check2, "Joker checks should be independent");
    assert_eq!(card_choice, card_choice2, "Card choices should be independent");
}

#[test]
fn test_state_save_load_mid_game() {
    let mut rng = BalatroRng::new(SeedType::String("SAVE_LOAD_TEST".to_string()));

    let mut game_events = Vec::new();

    for i in 0..10 {
        let seed = rng.pseudoseed(&format!("event_{}", i));
        let v = value(rng.pseudorandom(SeedType::Numeric(seed), Some(1), Some(100)));
        game_events.push((i, v));
    }

    let saved_state = rng.state().clone();

    for i in 10..20 {
        let seed = rng.pseudoseed(&format!("event_{}", i));
        let v = value(rng.pseudorandom(SeedType::Numeric(seed), Some(1), Some(100)));
        game_events.push((i, v));
    }

    let mut loaded_rng = BalatroRng::from_state(saved_state);
    let mut loaded_events = Vec::new();

    for i in 10..20 {
        let seed = loaded_rng.pseudoseed(&format!("event_{}", i));
        let v = value(loaded_rng.pseudorandom(SeedType::Numeric(seed), Some(1), Some(100)));
        loaded_events.push((i, v));
    }

    for i in 0..10 {
        assert_eq!(game_events[i + 10], loaded_events[i], "Loaded game should continue identically");
    }
}

#[test]
fn test_large_scale_performance() {
    let mut rng = BalatroRng::new(SeedType::String("PERFORMANCE_TEST".to_string()));

    let start_time = std::time::Instant::now();

    for i in 0..10000 {
        let seed = rng.pseudoseed(&format!("perf_{}", i));
        let _value = rng.pseudorandom(SeedType::Numeric(seed), Some(1), Some(1000));
    }

    let elapsed = start_time.elapsed();

    assert!(elapsed.as_secs() < 1, "10,000 operations should complete in less than 1 second");
}

#[test]
fn test_seed_collision_resistance() {
    let mut rng = BalatroRng::new(SeedType::String("COLLISION_TEST".to_string()));

    let mut seed_set = HashSet::new();
    let mut collisions = 0;

    for ante in 1..=8 {
        for reroll in 0..10 {
            let seed = rng.get_shop_rng(ante, reroll);
            if !seed_set.insert(seed) {
                collisions += 1;
            }
        }
    }

    for joker_id in 0..100 {
        for trigger in 0..10 {
            let seed = rng.get_joker_rng(&format!("joker_{}", joker_id), trigger);
            if !seed_set.insert(seed) {
                collisions += 1;
            }
        }
    }

    for ante in 1..=8 {
        for pattern in &["rarity", "soul_", "front", "erratic"] {
            let seed = rng.get_card_rng(pattern, ante, Some("test"));
            if !seed_set.insert(seed) {
                collisions += 1;
            }
        }
    }

    let total_seeds = seed_set.len() + collisions;
    let collision_rate = collisions as f64 / total_seeds as f64;

    assert!(collision_rate < 0.01, "Collision rate should be less than 1%, got {:.2}%", collision_rate * 100.0);
}

#[test]
fn same_seed_same_key_sequence() {
    let mut a = BalatroRng::new(SeedType::Numeric(7));
    let mut b = BalatroRng::new(SeedType::Numeric(7));
    let keys = ["x", "y", "x", "z", "x"];
    let sa: Vec<u64> = keys.iter().map(|k| a.pseudoseed(k)).collect();
    let sb: Vec<u64> = keys.iter().map(|k| b.pseudoseed(k)).collect();
    assert_eq!(sa, sb);
}

#[test]
fn interleaving_keys_keeps_each_stream() {
    let mut mixed = BalatroRng::new(SeedType::Numeric(7));
    let mut alone = BalatroRng::new(SeedType::Numeric(7));
    let a1 = mixed.pseudoseed("a");
    mixed.pseudoseed("b");
    mixed.pseudoseed("c");
    let a2 = mixed.pseudoseed("a");
    assert_eq!(a1, alone.pseudoseed("a"));
    assert_eq!(a2, alone.pseudoseed("a"));
}

#[test]
fn snapshot_then_restore_continues_identically() {
    let mut rng = BalatroRng::new(SeedType::String("S".to_string()));
    rng.pseudoseed("k1");
    rng.pseudoseed("k2");
    rng.pseudoseed("k1");
    let snap = rng.state().snapshot();
    assert_eq!(snap.counters.len(), 2);
    let mut back = BalatroRng::from_state(PseudorandomState::restore(&snap));
    for key in ["k1", "k2", "k3", "k1"] {
        assert_eq!(rng.pseudoseed(key), back.pseudoseed(key));
    }
}

#[test]
fn counters_advance_per_key() {
    let mut state = PseudorandomState::new(SeedType::Numeric(1));
    assert_eq!(state.get_key_seed("k"), 0);
    state.pseudoseed("k");
    state.pseudoseed("k");
    assert_eq!(state.get_key_seed("k"), 2);
    assert_eq!(state.get_key_seed("other"), 0);
    state.set_key_seed("k", 10);
    assert_eq!(state.get_key_seed("k"), 10);
}

#[test]
fn seed_hash_matches_its_definition() {
    // splitmix64 finalizer and FNV-1a, as documented.
    fn mix(mut z: u64) -> u64 {
        z ^= z >> 30;
        z = z.wrapping_mul(0xbf58476d1ce4e5b9);
        z ^= z >> 27;
        z = z.wrapping_mul(0x94d049bb133111eb);
        z ^ (z >> 31)
    }
    let offset: u64 = 0xcbf29ce484222325;
    let expected = mix(mix(offset ^ 0) ^ 12345);
    assert_eq!(PseudorandomState::new(SeedType::Numeric(12345)).base_seed(), expected);
    let mut h = mix(offset ^ 1);
    for b in "TUTORIAL".bytes() {
        h = (h ^ b as u64).wrapping_mul(0x100000001b3);
    }
    let expected = mix(h ^ 8);
    let rng = BalatroRng::new(SeedType::Numeric(0));
    assert_eq!(rng.pseudohash("TUTORIAL"), expected);
    assert_eq!(PseudorandomState::new(SeedType::String("TUTORIAL".to_string())).base_seed(), expected);
}

#[test]
fn integer_draws_stay_in_range_and_reject_empty_ranges() {
    let mut rng = BalatroRng::new(SeedType::Numeric(3));
    assert_eq!(rng.pseudorandom(SeedType::Numeric(1), Some(10), Some(9)), Err(RngError::BadRequest));
    assert_eq!(rng.pseudorandom(SeedType::Numeric(1), Some(0), None), Err(RngError::BadRequest));
    assert_eq!(rng.pseudorandom(SeedType::Numeric(1), Some(7), Some(7)), Ok(Draw::Int(7)));
    for s in 0..200 {
        match rng.pseudorandom(SeedType::Numeric(s), Some(i32::MIN), Some(i32::MAX)) {
            Ok(Draw::Int(v)) => assert!(v >= i32::MIN as i64 && v <= i32::MAX as i64),
            other => panic!("unexpected {:?}", other),
        }
        let u = rng.unit_draw(s);
        assert!(u < (1u64 << 53));
    }
}

#[test]
fn shuffle_is_a_rearrangement() {
    let mut rng = BalatroRng::new(SeedType::Numeric(3));
    let mut deck: Vec<u32> = (0..52).collect();
    rng.pseudoshuffle(&mut deck, 77);
    let mut sorted = deck.clone();
    sorted.sort();
    assert_eq!(sorted, (0..52).collect::<Vec<u32>>());
    let mut empty: Vec<u32> = vec![];
    rng.pseudoshuffle(&mut empty, 77);
    assert!(empty.is_empty());
    let mut letters = vec!['a', 'b', 'c', 'd', 'e'];
    let mut numbers = vec![0, 1, 2, 3, 4];
    rng.pseudoshuffle(&mut letters, 5);
    rng.pseudoshuffle(&mut numbers, 5);
    let positions: Vec<char> = numbers.iter().map(|&i| ['a', 'b', 'c', 'd', 'e'][i]).collect();
    assert_eq!(letters, positions);
}

#[test]
fn keys_are_built_from_their_parts() {
    let mut a = BalatroRng::new(SeedType::Numeric(9));
    let mut b = BalatroRng::new(SeedType::Numeric(9));
    assert_eq!(a.get_card_rng("rarity", 12, Some("joker")), b.pseudoseed("rarity12joker"));
    assert_eq!(a.get_shop_rng(3, 40), b.pseudoseed("shop_3_40"));
    assert_eq!(a.get_joker_rng("mime", 7), b.pseudoseed("joker_mime_7"));
    assert_eq!(a.get_card_rng("front", 0, None), b.pseudoseed("front0"));
}

#[test]
fn repeated_draws_do_not_advance_state() {
    let mut a = BalatroRng::new(SeedType::String("TEST".to_string()));
    let mut b = BalatroRng::new(SeedType::String("TEST".to_string()));
    let first = a.pseudorandom(SeedType::Numeric(999), Some(1), Some(10));
    assert_eq!(first, b.pseudorandom(SeedType::Numeric(999), Some(1), Some(10)));
    assert_eq!(first, a.pseudorandom(SeedType::Numeric(999), Some(1), Some(10)));
    assert_eq!(a.state().get_key_seed("anything"), 0);
    // Advancing happens only through a key.
    let s1 = a.pseudoseed("draw");
    let s2 = a.pseudoseed("draw");
    assert_ne!(value(a.pseudorandom(SeedType::Numeric(s1), Some(1), Some(1_000_000))),
        value(a.pseudorandom(SeedType::Numeric(s2), Some(1), Some(1_000_000))));
}

#[test]
fn draws_depend_on_the_stream_not_the_seed_bits() {
    let rng = BalatroRng::new(SeedType::Numeric(1));
    let draws: Vec<u64> = (0..16).map(|s| rng.unit_draw(s)).collect();
    for (s, d) in draws.iter().enumerate() {
        assert_ne!(*d, (s as u64) >> 11);
    }
    let mut rng = BalatroRng::new(SeedType::Numeric(1));
    let rolls: Vec<u32> = (0..50).map(|s| rng.roll_die(6, s)).collect();
    assert!(rolls.iter().any(|&r| r != rolls[0]));
}

#[test]
fn state_can_be_edited_in_place() {
    let mut rng = BalatroRng::new(SeedType::Numeric(5));
    rng.state_mut().set_key_seed("k", 3);
    assert_eq!(rng.state().get_key_seed("k"), 3);
    let mut fresh = PseudorandomState::new(SeedType::Numeric(5));
    fresh.set_key_seed("k", 3);
    assert_eq!(rng.pseudoseed("k"), fresh.pseudoseed("k"));
}

#[test]
fn shuffle_with_given_draws_is_exact() {
    let mut list = vec!['a', 'b', 'c', 'd'];
    jimbot::rng::shuffle_with(&mut list, &vec![1, 0, 0]);
    assert_eq!(list, vec!['d', 'c', 'a', 'b']);
    let mut same = vec![10, 20, 30, 40];
    jimbot::rng::shuffle_with(&mut same, &vec![1, 0, 0]);
    assert_eq!(same, vec![40, 30, 10, 20]);
    let mut untouched = vec![1, 2, 3];
    jimbot::rng::shuffle_with(&mut untouched, &vec![2, 1]);
    assert_eq!(untouched, vec![1, 2, 3]);
}

#[test]
fn test_probability_check() {
    let mut rng = BalatroRng::new(SeedType::Numeric(12345));

    // Test extreme probabilities
    assert!(rng.probability_check(1, 1, 999)); // Always true
    assert!(!rng.probability_check(0, 1, 999)); // Always false

    // Test same seed produces same result
    let result1 = rng.probability_check(1, 2, 999);
    let result2 = rng.probability_check(1, 2, 999);
    assert_eq!(result1, result2);
}

#[test]
fn test_weighted_choice() {
    let mut rng = BalatroRng::new(SeedType::Numeric(12345));

    let choices = vec![("rare", 1), ("common", 10), ("uncommon", 5)];

    let choice = rng.weighted_choice(&choices, 999);
    assert!(choice.is_some());

    let choice_val = choice.unwrap();
    assert!(choices.iter().any(|(item, _)| item == choice_val));
}

#[test]
fn test_probability_checks() {
    let mut rng = BalatroRng::new(SeedType::Numeric(24680));

    assert!(rng.probability_check(1, 1, 123), "Probability 1.0 should always be true");
    assert!(!rng.probability_check(0, 1, 123), "Probability 0.0 should always be false");

    let seed = 456;
    let result1 = rng.probability_check(1, 2, seed);
    let result2 = rng.probability_check(1, 2, seed);
    assert_eq!(result1, result2, "Same seed should produce same probability result");
}

#[test]
fn test_weighted_choice_distribution() {
    let mut rng = BalatroRng::new(SeedType::Numeric(86420));

    let choices = vec![("common", 70), ("uncommon", 25), ("rare", 4), ("legendary", 1)];

    let seed = 789;
    let choice = rng.weighted_choice(&choices, seed);
    assert!(choice.is_some());

    let choice_val = choice.unwrap();
    assert!(choices.iter().any(|(item, _)| item == choice_val));

    let empty_choices: Vec<(&str, u32)> = vec![];
    let empty_result = rng.weighted_choice(&empty_choices, seed);
    assert!(empty_result.is_none());
}

#[test]
fn weighted_choice_follows_the_draw() {
    let mut rng = BalatroRng::new(SeedType::Numeric(1));
    let zero = vec![("a", 0), ("b", 0)];
    assert!(rng.weighted_choice(&zero, 5).is_none());
    let only_b = vec![("a", 0), ("b", 3), ("c", 0)];
    for s in 1..50 {
        assert_eq!(rng.weighted_choice(&only_b, s), Some(&"b"));
    }
    let pair = vec![("low", 1), ("high", 1)];
    for s in 0..50 {
        let fraction = rng.unit_draw(s) as f64 / 9_007_199_254_740_992.0;
        let expected = if fraction * 2.0 <= 1.0 { "low" } else { "high" };
        assert_eq!(rng.weighted_choice(&pair, s), Some(&expected));
        assert_eq!(rng.probability_check(1, 2, s), fraction < 0.5);
    }
}

#[test]
fn weighted_choice_skips_zero_weights() {
    let mut rng = BalatroRng::new(SeedType::Numeric(1));
    let choices = vec![("never", 0), ("always", 5)];
    for s in 0..200 {
        assert_eq!(rng.weighted_choice(&choices, s), Some(&"always"));
    }
}

#[test]
fn same_seed_same_permutation_for_any_element_type() {
    let mut rng = BalatroRng::new(SeedType::Numeric(1));
    let mut letters: Vec<char> = "abcdefghij".chars().collect();
    let mut numbers: Vec<usize> = (0..10).collect();
    rng.pseudoshuffle(&mut letters, 2024);
    rng.pseudoshuffle(&mut numbers, 2024);
    let expected: Vec<char> = numbers.iter().map(|&i| "abcdefghij".as_bytes()[i] as char).collect();
    assert_eq!(letters, expected);
}

#[test]
fn snapshot_lists_keys_in_order() {
    let mut rng = BalatroRng::new(SeedType::Numeric(3));
    for key in ["pear", "apple", "fig", "apple2", "Zebra", "banana"] {
        rng.pseudoseed(key);
    }
    let snap = rng.state().snapshot();
    let keys: Vec<&str> = snap.counters.iter().map(|(k, _)| k.as_str()).collect();
    assert_eq!(keys, vec!["Zebra", "apple", "apple2", "banana", "fig", "pear"]);
}
