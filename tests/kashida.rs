use kashida::arabic::arabic_candidate;
use kashida::global::generic_candidate;
use kashida::segment::{clusters_from_breaks, words_from_breaks};
use kashida::syriac::syriac_candidate;
use kashida::text::decode;
use kashida::{find_kashidas, place_kashidas, Placed, Script};
use unicode_joining_type::{JoiningGroup, JoiningType};

#[test]
fn jalala_no_candidates() {
    let input = "الله";
    let candidates = find_kashidas(input, Script::Arabic);

    assert_eq!(candidates.len(), 0);
}

#[test]
fn basmala_candidates() {
    let input = "بسم الله الرحمن الرحيم";
    let candidates = find_kashidas(input, Script::Arabic);

    assert_eq!(candidates, vec![4, 37, 26]);
}

#[test]
fn tawhid_candidates() {
    let input = "لا إله إلا الله";
    let candidates = find_kashidas(input, Script::Arabic);

    assert_eq!(candidates, vec![9]);
}

#[test]
fn basmala_placement() {
    let input = "بسم الله الرحمن الرحيم";
    let candidates = find_kashidas(input, Script::Arabic);

    let output = place_kashidas(input, &candidates, 25);

    assert_eq!(candidates, vec![4, 37, 26]);
    assert_eq!(output.as_str(), "بســـــــــم الله الرحمــــــــن الرحــــــــيم");
}

#[test]
fn empty_and_blank_texts_have_no_candidates() {
    assert_eq!(find_kashidas("", Script::Arabic), Vec::<usize>::new());
    assert_eq!(find_kashidas("   ", Script::Arabic), Vec::<usize>::new());
    assert_eq!(find_kashidas("", Script::Unknown), Vec::<usize>::new());
}

#[test]
fn existing_tatweel_is_preferred() {
    // The elongation already in the word wins, at priority 0.
    assert_eq!(find_kashidas("بـب", Script::Arabic), vec![2]);
}

#[test]
fn two_letter_word_ranks_last() {
    // The two-letter word gets priority 9; the Seen of the second word gets 1.
    assert_eq!(find_kashidas("بت بسم", Script::Arabic), vec![9, 2]);
}

#[test]
fn lam_alef_alone_has_no_candidate() {
    assert_eq!(find_kashidas("لا", Script::Arabic), Vec::<usize>::new());
}

#[test]
fn generic_rule_takes_the_last_joining_boundary() {
    assert_eq!(find_kashidas("بسم", Script::Unknown), vec![4]);
    assert_eq!(find_kashidas("لا", Script::Unknown), vec![2]);
}

#[test]
fn syriac_word_final_boundary() {
    // SHIN LAMADH MIM ALAPH: the join before the final Alaph ranks first.
    assert_eq!(find_kashidas("\u{072B}\u{0720}\u{0721}\u{0710}", Script::Syriac), vec![6]);
}

#[test]
fn syriac_lamadh_alaph_ligature_is_kept_whole() {
    assert_eq!(find_kashidas("\u{0720}\u{0710}", Script::Syriac), Vec::<usize>::new());
    assert_eq!(find_kashidas("\u{0720}\u{0710}", Script::Unknown), vec![2]);
}

#[test]
fn every_offset_is_a_char_boundary_in_range() {
    let input = "والعصر إن الإنسان لفي خسر إلا الذين آمنوا وعملوا الصالحات";
    let candidates = find_kashidas(input, Script::Arabic);
    assert!(!candidates.is_empty());
    for &c in &candidates {
        assert!(c < input.len());
        assert!(input.is_char_boundary(c));
    }
}

#[test]
fn at_most_one_offset_per_word() {
    let input = "والعصر إن الإنسان لفي خسر إلا الذين آمنوا وعملوا الصالحات";
    let candidates = find_kashidas(input, Script::Arabic);
    let words: Vec<(usize, usize)> = {
        let mut v = Vec::new();
        let mut start = 0;
        for (i, c) in input.char_indices() {
            if c == ' ' {
                v.push((start, i));
                start = i + 1;
            }
        }
        v.push((start, input.len()));
        v
    };
    for (a, b) in words {
        let n = candidates.iter().filter(|&&c| a <= c && c < b).count();
        assert!(n <= 1);
    }
}

#[test]
fn placing_nothing_returns_the_text_itself() {
    let text = "بسم الله";
    let out = place_kashidas(text, &[], 0);
    assert!(matches!(out, Placed::Borrowed(_)));
    assert_eq!(out.as_str(), text);
    let out = place_kashidas(text, &[2, 4], 0);
    assert!(matches!(out, Placed::Borrowed(_)));
    assert_eq!(out.as_str(), text);
    let out = place_kashidas(text, &[], 3);
    assert!(matches!(out, Placed::Borrowed(_)));
    assert_eq!(out.as_str(), text);
}

#[test]
fn placing_cycles_through_the_offsets() {
    let text = "بسم";
    let out = place_kashidas(text, &[2, 4], 5);
    let expected = format!("ب{}س{}م", "\u{0640}".repeat(3), "\u{0640}".repeat(2));
    assert_eq!(out.as_str(), expected);
    assert_eq!(out.as_str().len(), text.len() + 5 * '\u{0640}'.len_utf8());
    let kept: String = out.as_str().chars().filter(|&c| c != '\u{0640}').collect();
    assert_eq!(kept, text);
}

#[test]
fn placing_at_the_end_of_the_text() {
    assert_eq!(place_kashidas("بسم", &[6], 1).as_str(), "بسم\u{0640}");
}

#[test]
fn placed_text_need_not_give_the_same_candidates() {
    let input = "بسم الله الرحمن الرحيم";
    let candidates = find_kashidas(input, Script::Arabic);
    let output = place_kashidas(input, &candidates, 25);
    let mut again = find_kashidas(output.as_str(), Script::Arabic);
    assert_ne!(again, candidates);
    // The tatweels now in the text are themselves the preferred places.
    again.sort();
    assert_eq!(again, vec![20, 58, 85]);
}

#[test]
fn arabic_rule_on_given_letters() {
    let letters = vec![
        (JoiningType::DualJoining, JoiningGroup::Beh),
        (JoiningType::DualJoining, JoiningGroup::Seen),
        (JoiningType::DualJoining, JoiningGroup::Meem),
    ];
    // After the Seen, before the Meem, at priority 1.
    let w = (Some((0, 1)), Some((1, 2)), Some((2, 3)), None);
    assert_eq!(arabic_candidate(&letters, w), Some((2, 1)));
    // Lam, Lam, Heh closing the word: nothing.
    let sacred = vec![
        (JoiningType::DualJoining, JoiningGroup::Lam),
        (JoiningType::DualJoining, JoiningGroup::Lam),
        (JoiningType::DualJoining, JoiningGroup::Heh),
    ];
    assert_eq!(arabic_candidate(&sacred, w), None);
    // A joining letter, then a final Heh: priority 2 before the Heh.
    let final_heh = vec![
        (JoiningType::RightJoining, JoiningGroup::Alef),
        (JoiningType::DualJoining, JoiningGroup::Lam),
        (JoiningType::DualJoining, JoiningGroup::Heh),
    ];
    assert_eq!(arabic_candidate(&final_heh, w), Some((2, 2)));
    // A Heh inside the word ranks as any other joining letter; a Dal or a
    // Teh Marbuta ranks 2.
    let medial = |g| {
        vec![
            (JoiningType::DualJoining, JoiningGroup::Beh),
            (JoiningType::DualJoining, g),
            (JoiningType::DualJoining, JoiningGroup::Beh),
            (JoiningType::DualJoining, JoiningGroup::Beh),
        ]
    };
    let inner = (Some((0, 1)), Some((1, 2)), Some((2, 3)), Some((3, 4)));
    assert_eq!(arabic_candidate(&medial(JoiningGroup::Heh), inner), Some((1, 7)));
    let dal = vec![
        (JoiningType::DualJoining, JoiningGroup::Beh),
        (JoiningType::RightJoining, JoiningGroup::Dal),
        (JoiningType::DualJoining, JoiningGroup::Beh),
        (JoiningType::DualJoining, JoiningGroup::Beh),
    ];
    assert_eq!(arabic_candidate(&dal, inner), Some((1, 2)));
}

#[test]
fn syriac_and_generic_rules_on_given_letters() {
    let letters = vec![
        (JoiningType::DualJoining, JoiningGroup::Lamadh),
        (JoiningType::RightJoining, JoiningGroup::Alaph),
    ];
    assert_eq!(syriac_candidate(&letters, (Some((0, 1)), Some((1, 2)), None, None)), None);
    assert_eq!(generic_candidate(&letters, (Some((0, 1)), Some((1, 2)), None)), Some((1, 0)));
    let plain = vec![
        (JoiningType::DualJoining, JoiningGroup::Beth),
        (JoiningType::DualJoining, JoiningGroup::Beth),
    ];
    assert_eq!(syriac_candidate(&plain, (Some((0, 1)), Some((1, 2)), None, None)), Some((1, 9)));
    // Alaph, Lamadh, Pe: only a Lamadh before an Alaph is a ligature, so the
    // join before the final Pe counts.
    let alaph_lamadh_pe = vec![
        (JoiningType::RightJoining, JoiningGroup::Alaph),
        (JoiningType::DualJoining, JoiningGroup::Lamadh),
        (JoiningType::DualJoining, JoiningGroup::Pe),
    ];
    assert_eq!(
        syriac_candidate(&alaph_lamadh_pe, (Some((0, 1)), Some((1, 2)), Some((2, 3)), None)),
        Some((2, 1))
    );
}

#[test]
fn words_and_clusters_from_given_breaks() {
    let d = decode("ab  cd");
    assert_eq!(words_from_breaks(&d, &vec![0, 2, 4, 6]), vec![(0, 2), (4, 6)]);
    // A boundary inside a character, or out of the text, is passed over.
    let d = decode("بس");
    assert_eq!(words_from_breaks(&d, &vec![0, 1, 4, 9]), Vec::<(usize, usize)>::new());
    assert_eq!(words_from_breaks(&d, &vec![0, 4]), vec![(0, 4)]);
    assert_eq!(clusters_from_breaks(&d, (0, 4), &vec![0, 2, 4]), vec![(0, 1), (1, 2)]);
    assert_eq!(clusters_from_breaks(&d, (0, 4), &vec![0, 3, 4]), Vec::<(usize, usize)>::new());
}
