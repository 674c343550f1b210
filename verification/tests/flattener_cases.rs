use bamboo_core::flattener::{first_canvas_char_in_suffix, flatten_slice};
use bamboo_core::input_method::{EffectType, Rule};
use bamboo_core::OutputOptions;
use bamboo_core::Transformation;

#[test]
fn flattener_first_canvas_char_in_suffix_handles_offsets() {
    let t1 = Transformation {
        rule: Rule {
            key: 'a',
            effect: 0,
            effect_type: EffectType::Appending,
            effect_on: 'a',
            result: 'a',
            appended_rules: Vec::new(),
        },
        target: None,
        is_upper_case: false,
    };
    let t2 = Transformation {
        rule: Rule {
            key: ' ',
            effect: 0,
            effect_type: EffectType::Appending,
            effect_on: ' ',
            result: ' ',
            appended_rules: Vec::new(),
        },
        target: None,
        is_upper_case: false,
    };
    let t3 = Transformation {
        rule: Rule {
            key: 'w',
            effect: 0,
            effect_type: EffectType::Appending,
            effect_on: 'w',
            result: 'w',
            appended_rules: Vec::new(),
        },
        target: None,
        is_upper_case: false,
    };
    let comp = vec![t1, t2, t3];
    assert_eq!(first_canvas_char_in_suffix(&comp, 1, OutputOptions::RAW), Some(' '));
    assert_eq!(first_canvas_char_in_suffix(&comp, 2, OutputOptions::NONE), Some('w'));
}

#[test]
fn flattener_first_canvas_char_in_suffix_resolves_absolute_targets() {
    let x = Transformation {
        rule: Rule {
            key: 'x',
            effect: 0,
            effect_type: EffectType::Appending,
            effect_on: 'x',
            result: 'x',
            appended_rules: Vec::new(),
        },
        target: None,
        is_upper_case: false,
    };
    let o = Transformation {
        rule: Rule {
            key: 'o',
            effect: 0,
            effect_type: EffectType::Appending,
            effect_on: 'o',
            result: 'o',
            appended_rules: Vec::new(),
        },
        target: None,
        is_upper_case: false,
    };
    // Mark::Hat
    let mark_hat = Transformation {
        rule: Rule {
            key: 'o',
            effect: 1,
            effect_type: EffectType::MarkTransformation,
            effect_on: 'o',
            result: 'ô',
            appended_rules: Vec::new(),
        },
        target: Some(1),
        is_upper_case: false,
    };
    let comp = vec![x, o, mark_hat];
    assert_eq!(first_canvas_char_in_suffix(&comp, 1, OutputOptions::NONE), Some('ô'));
}

#[test]
fn flattener_flatten_applies_mark_and_tone_in_order() {
    let o = Transformation {
        rule: Rule {
            key: 'o',
            effect: 0,
            effect_type: EffectType::Appending,
            effect_on: 'o',
            result: 'o',
            appended_rules: Vec::new(),
        },
        target: None,
        is_upper_case: false,
    };
    // Mark::Hat
    let hat = Transformation {
        rule: Rule {
            key: 'o',
            effect: 1,
            effect_type: EffectType::MarkTransformation,
            effect_on: 'o',
            result: 'ô',
            appended_rules: Vec::new(),
        },
        target: Some(0),
        is_upper_case: false,
    };
    // Tone::Acute
    let acute = Transformation {
        rule: Rule {
            key: 's',
            effect: 2,
            effect_type: EffectType::ToneTransformation,
            effect_on: '\0',
            result: '\0',
            appended_rules: Vec::new(),
        },
        target: Some(0),
        is_upper_case: false,
    };
    let comp = vec![o, hat, acute];
    assert_eq!(flatten_slice(&comp, OutputOptions::NONE), "ố");
}

#[test]
fn fllattener_first_canvas_char_in_suffix_handles_offsets() {
    let t1 = Transformation {
        rule: Rule {
            key: 'a',
            effect: 0,
            effect_type: EffectType::Appending,
            effect_on: 'a',
            result: 'a',
            appended_rules: Vec::new(),
        },
        target: None,
        is_upper_case: false,
    };
    let t2 = Transformation {
        rule: Rule {
            key: ' ',
            effect: 0,
            effect_type: EffectType::Appending,
            effect_on: ' ',
            result: ' ',
            appended_rules: Vec::new(),
        },
        target: None,
        is_upper_case: false,
    };
    let t3 = Transformation {
        rule: Rule {
            key: 'w',
            effect: 0,
            effect_type: EffectType::Appending,
            effect_on: 'w',
            result: 'w',
            appended_rules: Vec::new(),
        },
        target: None,
        is_upper_case: false,
    };
    let comp = vec![t1, t2, t3];
    assert_eq!(first_canvas_char_in_suffix(&comp, 1, OutputOptions::RAW), Some(' '));
    assert_eq!(first_canvas_char_in_suffix(&comp, 2, OutputOptions::NONE), Some('w'));
}

#[test]
fn fllattener_first_canvas_char_in_suffix_resolves_absolute_targets() {
    let x = Transformation {
        rule: Rule {
            key: 'x',
            effect: 0,
            effect_type: EffectType::Appending,
            effect_on: 'x',
            result: 'x',
            appended_rules: Vec::new(),
        },
        target: None,
        is_upper_case: false,
    };
    let o = Transformation {
        rule: Rule {
            key: 'o',
            effect: 0,
            effect_type: EffectType::Appending,
            effect_on: 'o',
            result: 'o',
            appended_rules: Vec::new(),
        },
        target: None,
        is_upper_case: false,
    };
    // Mark::Hat
    let mark_hat = Transformation {
        rule: Rule {
            key: 'o',
            effect: 1,
            effect_type: EffectType::MarkTransformation,
            effect_on: 'o',
            result: 'ô',
            appended_rules: Vec::new(),
        },
        target: Some(1),
        is_upper_case: false,
    };
    let comp = vec![x, o, mark_hat];
    assert_eq!(first_canvas_char_in_suffix(&comp, 1, OutputOptions::NONE), Some('ô'));
}

#[test]
fn fllattener_flatten_applies_mark_and_tone_in_order() {
    let o = Transformation {
        rule: Rule {
            key: 'o',
            effect: 0,
            effect_type: EffectType::Appending,
            effect_on: 'o',
            result: 'o',
            appended_rules: Vec::new(),
        },
        target: None,
        is_upper_case: false,
    };
    // Mark::Hat
    let hat = Transformation {
        rule: Rule {
            key: 'o',
            effect: 1,
            effect_type: EffectType::MarkTransformation,
            effect_on: 'o',
            result: 'ô',
            appended_rules: Vec::new(),
        },
        target: Some(0),
        is_upper_case: false,
    };
    // Tone::Acute
    let acute = Transformation {
        rule: Rule {
            key: 's',
            effect: 2,
            effect_type: EffectType::ToneTransformation,
            effect_on: '\0',
            result: '\0',
            appended_rules: Vec::new(),
        },
        target: Some(0),
        is_upper_case: false,
    };
    let comp = vec![o, hat, acute];
    assert_eq!(flatten_slice(&comp, OutputOptions::NONE), "ố");
}
