use bamboo_core::engine::DfaCompiler;
use bamboo_core::advanced::{Dfa, MAX_ACTIVE_TRANS};
use bamboo_core::bamboo_util::new_appending_trans;
use bamboo_core::input_method::{mark_to_u8, tone_to_u8, Mark, Tone};
use bamboo_core::utils::{add_mark_to_char, add_tone_to_char, is_vietnamese_rune, is_vowel, lower, upper};
use bamboo_core::{Config, Engine, InputMethod, Mode, OutputOptions, TransformationStack};

#[test]
fn dfa_cache_gives_same_word_twice() {
    let mut e = Engine::new(InputMethod::telex());
    e.process_str("tieengs ", Mode::Vietnamese);
    e.process_str("tieengs", Mode::Vietnamese);
    assert_eq!(e.output(), "tiếng");
    assert_eq!(e.get_processed_str(OutputOptions::FULL_TEXT), "tiếng tiếng");
}

#[test]
fn dfa_after_warm_up_same_results() {
    let mut a = Engine::new(InputMethod::telex());
    let mut b = Engine::new(InputMethod::telex());
    b.warm_up();
    for word in ["as", "aa", "uw", "ow", "hoaf", "nghieengs"] {
        a.reset();
        b.reset();
        assert_eq!(a.process(word, Mode::Vietnamese), b.process(word, Mode::Vietnamese), "word {word}");
    }
}

#[test]
fn delta_rebuilds_new_preedit() {
    let mut e = Engine::new(InputMethod::telex());
    let mut shown = String::new();
    for key in "vieetj".chars() {
        let (bs, bytes, ins) = e.process_key_delta(key, Mode::Vietnamese);
        let keep: String = shown.chars().take(shown.chars().count() - bs).collect();
        assert_eq!(shown.len() - keep.len(), bytes);
        shown = keep + &ins;
        assert_eq!(shown, e.output());
    }
    assert_eq!(shown, "việt");
}

#[test]
fn delta_counts_bytes_of_erased_letters() {
    let mut e = Engine::new(InputMethod::telex());
    e.process_key_delta('a', Mode::Vietnamese);
    e.process_key_delta('s', Mode::Vietnamese);
    // "á" (2 bytes in UTF-8) becomes "à"
    let (bs, bytes, ins) = e.process_key_delta('f', Mode::Vietnamese);
    assert_eq!(bs, 1);
    assert_eq!(bytes, 2);
    assert_eq!(ins, "à");
}

#[test]
fn delta_into_writes_inserted_text() {
    let mut e = Engine::new(InputMethod::telex());
    let mut ins = String::from("stale");
    assert_eq!(e.process_key_delta_into('o', Mode::Vietnamese, &mut ins), 0);
    assert_eq!(ins, "o");
    assert_eq!(e.process_key_delta_into('o', Mode::Vietnamese, &mut ins), 1);
    assert_eq!(ins, "ô");
}

#[test]
fn english_mode_keeps_ascii_text() {
    let mut e = Engine::new(InputMethod::telex());
    e.process_str("Hello, World! aa ow", Mode::English);
    assert_eq!(e.get_processed_str(OutputOptions::FULL_TEXT), "Hello, World! aa ow");
}

#[test]
fn commit_moves_word_to_committed_text() {
    let mut e = Engine::new(InputMethod::telex());
    e.process_str("vieetj", Mode::Vietnamese);
    e.commit();
    assert_eq!(e.output(), "");
    assert_eq!(e.get_processed_str(OutputOptions::FULL_TEXT), "việt");
    e.commit();
    assert_eq!(e.get_processed_str(OutputOptions::FULL_TEXT), "việt");
}

#[test]
fn reset_clears_everything() {
    let mut e = Engine::new(InputMethod::telex());
    e.process_str("xin chaof", Mode::Vietnamese);
    e.reset();
    assert_eq!(e.output(), "");
    assert_eq!(e.get_processed_str(OutputOptions::FULL_TEXT), "");
}

#[test]
fn output_options_variants() {
    let mut e = Engine::new(InputMethod::telex());
    e.process_str("tieengs", Mode::Vietnamese);
    assert_eq!(e.get_processed_str(OutputOptions::MARK_LESS), "tiéng");
    assert_eq!(e.get_processed_str(OutputOptions::TONE_LESS), "tiêng");
    assert_eq!(e.get_processed_str(OutputOptions::RAW), "tieengs");
    assert_eq!(e.get_processed_str(OutputOptions::PUNCTUATION_MODE), "tiếng");
    assert_eq!(e.get_processed_str(OutputOptions::TONE_LESS | OutputOptions::MARK_LESS), "tieng");
}

#[test]
fn punctuation_mode_on_empty_composition() {
    let e = Engine::new(InputMethod::telex());
    assert_eq!(e.get_processed_str(OutputOptions::PUNCTUATION_MODE), "");
}

// Backspace undoes the last keystroke, as the documentation of
// `remove_last_char` describes ("chuyeenr" then backspace gives "chuyên"); it
// does not drop the last letter under the tone ("chuyể").
#[test]
fn backspace_undoes_tone_keystroke() {
    let mut e = Engine::new(InputMethod::telex());
    e.process_str("chuyeenr", Mode::Vietnamese);
    assert_eq!(e.output(), "chuyển");
    e.remove_last_char(true);
    assert_eq!(e.output(), "chuyên");
}

#[test]
fn backspace_and_restore_on_empty_engine() {
    let mut e = Engine::new(InputMethod::telex());
    e.remove_last_char(true);
    assert_eq!(e.output(), "");
    e.restore_last_word(true);
    assert_eq!(e.output(), "");
}

#[test]
fn backspace_of_non_rule_key_drops_last() {
    let mut e = Engine::new(InputMethod::telex());
    e.process_str("ab", Mode::Vietnamese);
    e.process_key('ñ', Mode::English);
    assert_eq!(e.output(), "abñ");
    e.remove_last_char(false);
    assert_eq!(e.output(), "ab");
}

#[test]
fn uppercase_letters_are_kept() {
    let mut e = Engine::new(InputMethod::telex());
    assert_eq!(e.process("VIEETJ", Mode::Vietnamese), "VIỆT");
}

#[test]
fn super_key_turns_uo_into_uho() {
    let mut e = Engine::new(InputMethod::telex());
    assert_eq!(e.process("dduowngf", Mode::Vietnamese), "đường");
}

#[test]
fn is_valid_rejects_bad_syllable() {
    let mut e = Engine::new(InputMethod::telex());
    e.process_str("bbb", Mode::Vietnamese);
    assert!(!e.is_valid(true));
}

#[test]
fn config_and_input_method_accessors() {
    let mut e = Engine::with_config(InputMethod::vni(), Config::from_flags(1));
    assert_eq!(e.config(), Config { free_tone_marking: true, std_tone_style: false, auto_correct: false });
    e.set_config(Config::new());
    assert_eq!(e.config(), Config::new());
    assert_eq!(e.input_method().name, "VNI");
}

#[test]
fn config_flags_round_trip() {
    for flags in 0u32..8 {
        let c = Config::from_flags(flags);
        assert_eq!(c.to_flags(), flags);
        assert_eq!(Config::from_flags(c.to_flags()), c);
    }
    assert_eq!(Config::from_flags(0xff).to_flags(), 7);
}

#[test]
fn tone_and_mark_values() {
    assert_eq!(tone_to_u8(Tone::Unmarked), 0);
    assert_eq!(tone_to_u8(Tone::Dot), 5);
    assert_eq!(mark_to_u8(Mark::Hat), 1);
    assert_eq!(mark_to_u8(Mark::Raw), 5);
}

#[test]
fn last_tone_wins() {
    assert_eq!(add_tone_to_char(add_tone_to_char('a', 2), 1), 'à');
    assert_eq!(add_tone_to_char('ấ', 0), 'â');
    assert_eq!(add_tone_to_char('b', 3), 'b');
}

#[test]
fn mark_keeps_tone() {
    assert_eq!(add_mark_to_char('á', 1), 'ấ');
    assert_eq!(add_mark_to_char('ấ', 0), 'á');
    assert_eq!(add_mark_to_char('ợ', 0), 'ọ');
    assert_eq!(add_mark_to_char('d', 4), 'đ');
}

#[test]
fn unicode_case_mapping() {
    assert_eq!(lower('Ư'), 'ư');
    assert_eq!(upper('ư'), 'Ư');
    assert_eq!(lower('Q'), 'q');
    assert_eq!(upper('ệ'), 'Ệ');
}

#[test]
fn dfa_add_state_is_idempotent() {
    let mut d = Dfa::new();
    assert_eq!(d.add_state(&[]), 0);
    let comp = vec![new_appending_trans('a', false)];
    let id = d.add_state(&comp);
    assert_eq!(id, 1);
    assert_eq!(d.add_state(&comp), 1);
    assert_eq!(d.find_state(&comp), Some(1));
    assert_eq!(d.states.len(), 2);
}

#[test]
fn stack_is_bounded() {
    let mut s = TransformationStack::new();
    for _ in 0..30 {
        s.push(new_appending_trans('a', false));
    }
    assert_eq!(s.len(), MAX_ACTIVE_TRANS);
    let mut rest = TransformationStack::new();
    s.drain_to(20, &mut rest);
    assert_eq!(s.len(), 20);
    assert_eq!(rest.len(), 4);
    assert!(s.pop().is_some());
    assert_eq!(s.len(), 19);
    s.extend_from_slice(rest.as_slice());
    s.extend_from_slice(rest.as_slice());
    assert_eq!(s.len(), MAX_ACTIVE_TRANS);
    s.clear();
    assert!(s.is_empty());
    assert!(s.pop().is_none());
}

#[test]
fn backspace_undoes_english_letter() {
    let mut e = Engine::new(InputMethod::telex());
    e.process_str("Ab", Mode::English);
    e.process_key('Q', Mode::English);
    assert_eq!(e.output(), "AbQ");
    e.remove_last_char(false);
    assert_eq!(e.output(), "Ab");
}

#[test]
fn horn_on_u_spreads_to_o_before_a_final_consonant() {
    let mut e = Engine::new(InputMethod::telex());
    assert_eq!(e.process("tuwong", Mode::Vietnamese), "tương");
}

#[test]
fn quick_start_words() {
    let mut engine = Engine::new(InputMethod::telex());
    assert_eq!(engine.process("tieengs", Mode::Vietnamese), "tiếng");
    engine.reset();
    assert_eq!(engine.process("vieetj", Mode::Vietnamese), "việt");
}

#[test]
fn incremental_keys_give_tieng() {
    let mut engine = Engine::new(InputMethod::telex());
    for key in ['t', 'i', 'e', 'e', 'n', 'g', 's'] {
        engine.process_key(key, Mode::Vietnamese);
    }
    assert_eq!(engine.output(), "tiếng");
}

#[test]
fn cache_not_used_out_of_sync_after_uppercase() {
    let mut e = Engine::new(InputMethod::telex());
    e.process_str("Ba ", Mode::Vietnamese);
    e.process_key('a', Mode::Vietnamese);
    assert_eq!(e.output(), "a");
    assert_eq!(e.get_processed_str(OutputOptions::FULL_TEXT), "Ba a");
}

#[test]
fn reset_acts_like_a_new_engine() {
    let mut e = Engine::new(InputMethod::telex());
    assert_eq!(e.process("Ba", Mode::Vietnamese), "Ba");
    e.reset();
    assert_eq!(e.process("a", Mode::Vietnamese), "a");
    let mut fresh = Engine::new(InputMethod::telex());
    e.reset();
    assert_eq!(e.process("nghieengs hoaf", Mode::Vietnamese), fresh.process("nghieengs hoaf", Mode::Vietnamese));
}

#[test]
fn warm_up_mid_word_changes_nothing() {
    let mut e = Engine::new(InputMethod::telex());
    e.process_key('t', Mode::Vietnamese);
    e.warm_up();
    e.process_str("a a", Mode::Vietnamese);
    assert_eq!(e.get_processed_str(OutputOptions::FULL_TEXT), "ta a");
}

#[test]
fn set_config_drops_transitions_of_old_config() {
    let mut e = Engine::new(InputMethod::telex());
    assert_eq!(e.process("hoaf", Mode::Vietnamese), "hòa");
    e.reset();
    let c = Config { free_tone_marking: true, std_tone_style: false, auto_correct: true };
    e.set_config(c);
    assert_eq!(e.config(), c);
    let mut other = Engine::with_config(InputMethod::telex(), c);
    let expected = other.process("hoaf", Mode::Vietnamese);
    assert_eq!(expected, "hoà");
    assert_eq!(e.process("hoaf", Mode::Vietnamese), expected);
}

#[test]
fn vowels_in_either_case() {
    for c in ['a', 'Y', 'ệ', 'ư', 'Ấ', 'Ư', 'Ỵ'] {
        assert!(is_vowel(c), "{c}");
    }
    for c in ['b', 'đ', 'Đ', '1', ' '] {
        assert!(!is_vowel(c), "{c}");
    }
    for c in ['á', 'â', 'ấ', 'ư', 'ỹ', 'đ'] {
        assert!(is_vietnamese_rune(c), "{c}");
    }
    assert!(!is_vietnamese_rune('Â'));
    assert!(!is_vietnamese_rune('Đ'));
    assert!(!is_vietnamese_rune('a'));
    assert!(!is_vietnamese_rune('A'));
    assert!(!is_vietnamese_rune('b'));
}

#[test]
fn compile_common_links_syllables_from_empty_state() {
    let im = InputMethod::telex();
    let mut c = DfaCompiler::new(&im, Config::default().to_flags());
    c.compile_common();
    for v in ['a', 'e', 'i', 'o', 'u', 'y'] {
        let id = c.dfa.get_state(0).transitions[v as usize];
        assert_ne!(id, 0, "{v}");
        assert_eq!(c.dfa.find_state(&[new_appending_trans(v, false)]), Some(id), "{v}");
        let s = c.dfa.get_state(id).transitions['s' as usize];
        assert_ne!(s, 0, "{v}s");
    }
}

// The full text keeps tones: `FULL_TEXT` asks for the committed text with the
// composition, not for toneless text (typing "hoc rus" shows "hoc rú").
#[test]
fn full_text_keeps_the_tone() {
    let mut e = Engine::new(InputMethod::telex());
    e.process_str("Trangws", Mode::Vietnamese);
    assert_eq!(e.get_processed_str(OutputOptions::FULL_TEXT), "Trắng");
    assert_eq!(e.get_processed_str(OutputOptions::FULL_TEXT | OutputOptions::TONE_LESS), "Trăng");
}
