use feature_refining::fea_parsing::{render_fea_feature_body, render_fea_sub};
use feature_refining::glyphs::{aug_decode, aug_encode, decode, AugGlyph};
use feature_refining::high_level_substitutions2::{
    Anterior, HLSubstitution, HLSubstitutionList, Posterior,
};
use feature_refining::substitutions2 as s2;
use itertools::Itertools;
use rand::distributions::{Bernoulli, Uniform};
use rand::prelude::Distribution;

#[test]
fn test_deapply_posterior() {
    let word = aug_decode("k\u{e6}t");
    let posterior = Posterior { content: aug_decode("k\u{e6}") };
    let mut deapplied = word.clone();
    assert_eq!(posterior.deapply(&mut deapplied, 0), true);
    assert_eq!(deapplied, aug_decode("{0}t"));
}

#[test]
fn test_deapply_posterior_2() {
    for (word_str, posterior_str, should_str) in [
        ("k\u{e6}t", "k\u{e6}", "{0}t"),
        ("apple", "p", "a{0}{0}le"),
        ("aadam", "aa", "{0}dam"),
        ("aaadam", "aa", "{0}adam"),
        ("aaaadam", "aa", "{0}{0}dam"),
    ] {
        let word = aug_decode(word_str);
        let posterior = Posterior { content: aug_decode(posterior_str) };
        let mut deapplied = word.clone();
        assert_eq!(posterior.deapply(&mut deapplied, 0), true);
        assert_eq!(aug_encode(&deapplied), should_str);
    }
}

#[test]
fn test_apply_anterior_1() {
    let anterior = Anterior::decode("[ca]").unwrap();

    let word = aug_decode("cat");

    let mut applied = word.clone();
    assert_eq!(anterior.apply(&mut applied, 0), true);
    assert_eq!(applied, aug_decode("{0}t"));
}

#[test]
fn test_apply_anterior_2() {
    for (word_str, anterior_str, should_str, should_match) in [
        ("cat", "[ca]", "{0}t", true),
        ("cat", "[ca]$", "cat", false),
        ("cat", "^[ca]", "{0}t", true),
        ("abc", "a[b]c", "a{0}c", true),
        ("aa", "a[a]", "a{0}", true),
        ("aaa", "a[a]", "a{0}a", true),
        ("aaaa", "a[a]", "a{0}a{0}", true),
        ("cat", "^[a]", "cat", false),
    ] {
        println!("{} {} {} {}", word_str, anterior_str, should_str, should_match);

        let anterior = Anterior::decode(anterior_str).unwrap();

        let word = aug_decode(word_str);

        let mut applied = word.clone();
        assert_eq!(anterior.apply(&mut applied, 0), should_match);
        assert_eq!(aug_encode(&applied), should_str);

        println!("");
    }
}

#[test]
fn test_apply_anterior_3() {
    let anterior = Anterior::decode("^[-]").unwrap();

    let word = aug_decode("a-\u{283}b");

    let mut applied = word.clone();
    assert_eq!(anterior.apply(&mut applied, 0), false);
}

#[test]
fn test_encoding_1() {
    for str in [
        "[a]\u{2192}3\u{2192}b",
        "^[a]\u{2192}3\u{2192}b",
        "^[a]$\u{2192}3\u{2192}b",
        "[a]$\u{2192}3\u{2192}bgq",
        "[a]{7}$\u{2192}3\u{2192}bgq",
    ] {
        println!("{}", str);
        assert_eq!(&HLSubstitution::encode(&HLSubstitution::decode(str).unwrap()), str);
    }
}

#[test]
fn posterior_low_level_test_1() {
    for (posterior_str, should_str) in [("a", "sub syn0' by a;"), ("ab", "sub syn0' by a b;")] {
        let posterior = Posterior { content: aug_decode(posterior_str) };
        let low_level = posterior.low_level(0);
        assert_eq!(render_fea_sub(&low_level), should_str);
    }
}

#[test]
fn anterior_low_level_test_1() {
    for (anterior_str, should_str) in [
        ("[a]", "sub a' by syn0;"),
        ("[a]b", "sub a' b by syn0;"),
        ("c[a]b", "sub c a' b by syn0;"),
        ("^c[a]b", "ignore sub @lc c a' b; sub c a' b by syn0;"),
        ("c[a]b$", "ignore sub c a' b @lc; sub c a' b by syn0;"),
        ("^c[a]b$", "ignore sub @lc c a' b; ignore sub c a' b @lc; sub c a' b by syn0;"),
        (
            "^c[az]b$",
            "ignore sub @lc c a' z b; ignore sub c a' z b @lc; sub c a' z' b by syn0;",
        ),
    ] {
        let anterior = Anterior::decode(anterior_str).unwrap();
        let low_level = anterior.low_level(0);
        assert_eq!(
            Itertools::intersperse(low_level.iter().map(|s| render_fea_sub(s)), " ".to_owned())
                .collect::<String>(),
            should_str
        );
    }
}

#[test]
fn test_anterior_correspondence_1() {
    for (anterior_str, word_str, should_str) in [
        ("[a]", "cat", "c{0}t"),
        ("a[a]", "aaa", "a{0}a"),
        ("a[a]", "aaaa", "a{0}a{0}"),
        ("^[a]", "cat", "cat"),
        ("[at]$", "cat", "c{0}"),
    ] {
        println!("{} {} {}", anterior_str, word_str, should_str);

        let word = aug_decode(word_str);
        let anterior = Anterior::decode(anterior_str).unwrap();

        let mut applied_directly = word.clone();
        anterior.apply(&mut applied_directly, 0);
        println!("directly: {}", aug_encode(&applied_directly));

        let mut applied_by_low_level = word.clone();
        let low_level = anterior.low_level(0);
        let sl = s2::SubstitutionList { lookups: vec![s2::Lookup { substitutions: low_level }] };
        s2::apply_all(&mut applied_by_low_level, &sl);
        println!("by low level: {}", aug_encode(&applied_by_low_level));

        assert_eq!(aug_encode(&applied_directly), should_str);
        assert_eq!(aug_encode(&applied_by_low_level), should_str);

        println!("");
    }
}

fn random_glyph<R: rand::Rng>(rng: &mut R, glyphs: &Vec<feature_refining::glyphs::Glyph>) -> AugGlyph {
    match Bernoulli::new(0.1).unwrap().sample(rng) {
        false => AugGlyph::Real(glyphs[Uniform::new(0, glyphs.len()).sample(rng)]),
        true => AugGlyph::Synthetic(0),
    }
}

#[test]
fn test_anterior_correspondence_2() {
    let mut rng = rand::thread_rng();

    let glyphs = decode("ab\u{283}-'");

    let mut num_hit: usize = 0;

    for _ in 0..10000 {
        let word: Vec<AugGlyph> = (0..Uniform::new_inclusive(1, 6).sample(&mut rng))
            .map(|_| random_glyph(&mut rng, &glyphs))
            .collect();

        let anterior = Anterior {
            at_start: Bernoulli::new(0.2).unwrap().sample(&mut rng),
            at_end: Bernoulli::new(0.2).unwrap().sample(&mut rng),
            pre_key: (0..Uniform::new_inclusive(0, 2).sample(&mut rng))
                .map(|_| random_glyph(&mut rng, &glyphs))
                .collect(),
            at_key: (0..Uniform::new_inclusive(1, 3).sample(&mut rng))
                .map(|_| random_glyph(&mut rng, &glyphs))
                .collect(),
            post_key: (0..Uniform::new_inclusive(0, 2).sample(&mut rng))
                .map(|_| random_glyph(&mut rng, &glyphs))
                .collect(),
        };

        let word_str = aug_encode(&word);
        let anterior_str = anterior.encode();

        let mut applied_directly = word.clone();
        if anterior.apply(&mut applied_directly, 1) {
            num_hit += 1;
        }

        let mut applied_by_low_level = word.clone();
        let low_level = anterior.low_level(1);
        let sl = s2::SubstitutionList { lookups: vec![s2::Lookup { substitutions: low_level }] };
        s2::apply_all(&mut applied_by_low_level, &sl);

        if aug_encode(&applied_directly) != aug_encode(&applied_by_low_level) {
            println!("{} {}", anterior_str, word_str);
            println!("directly: {}", aug_encode(&applied_directly));
            println!("by low level: {}", aug_encode(&applied_by_low_level));
            println!("");
        }
        assert_eq!(aug_encode(&applied_directly), aug_encode(&applied_by_low_level));
    }

    println!("num_hit = {}", num_hit);
}

#[test]
fn test_anterior_correspondence_3() {
    let anterior_str = "[a]$";
    let word_str = "ab-";
    let should_str = "ab-";

    println!("{} {} {}", anterior_str, word_str, should_str);

    let word = aug_decode(word_str);
    let anterior = Anterior::decode(anterior_str).unwrap();

    let mut applied_directly = word.clone();
    anterior.apply(&mut applied_directly, 1);
    println!("directly: {}", aug_encode(&applied_directly));

    let mut applied_by_low_level = word.clone();
    let low_level = anterior.low_level(1);
    println!(
        "low_level = {}",
        Itertools::intersperse(low_level.iter().map(|s| render_fea_sub(s)), " ".to_owned())
            .collect::<String>()
    );
    let sl = s2::SubstitutionList { lookups: vec![s2::Lookup { substitutions: low_level }] };
    s2::apply_all(&mut applied_by_low_level, &sl);
    println!("by low level: {}", aug_encode(&applied_by_low_level));

    assert_eq!(aug_encode(&applied_directly), should_str);
    assert_eq!(aug_encode(&applied_by_low_level), should_str);
}

#[test]
fn test_anterior_correspondence_4() {
    let anterior_str = "[aa]$";
    let word_str = "aaa";
    let should_str = "a{1}";

    println!("{} {} {}", anterior_str, word_str, should_str);

    let word = aug_decode(word_str);
    let anterior = Anterior::decode(anterior_str).unwrap();

    let mut applied_directly = word.clone();
    anterior.apply(&mut applied_directly, 1);
    println!("directly: {}", aug_encode(&applied_directly));

    let mut applied_by_low_level = word.clone();
    let low_level = anterior.low_level(1);
    println!(
        "low_level = {}",
        Itertools::intersperse(low_level.iter().map(|s| render_fea_sub(s)), " ".to_owned())
            .collect::<String>()
    );
    let sl = s2::SubstitutionList { lookups: vec![s2::Lookup { substitutions: low_level }] };
    s2::apply_all(&mut applied_by_low_level, &sl);
    println!("by low level: {}", aug_encode(&applied_by_low_level));

    assert_eq!(aug_encode(&applied_directly), should_str);
    assert_eq!(aug_encode(&applied_by_low_level), should_str);
}

#[test]
fn test_posterior_correspondence_1() {
    let mut rng = rand::thread_rng();

    let glyphs = decode("ab\u{283}-'");

    let mut num_hit: usize = 0;

    for _ in 0..10000 {
        let word: Vec<AugGlyph> = (0..Uniform::new_inclusive(1, 6).sample(&mut rng))
            .map(|_| random_glyph(&mut rng, &glyphs))
            .collect();

        let posterior = Posterior {
            content: (0..Uniform::new_inclusive(1, 3).sample(&mut rng))
                .map(|_| random_glyph(&mut rng, &glyphs))
                .collect(),
        };

        let word_str = aug_encode(&word);
        let posterior_str = aug_encode(&posterior.content);

        println!("{} {}", posterior_str, word_str);

        let mut deapplied = word.clone();
        if posterior.deapply(&mut deapplied, 1) {
            num_hit += 1;
        }
        println!("deapplied: {}", aug_encode(&deapplied));

        let mut reapplied_directly = deapplied.clone();
        posterior.apply(&mut reapplied_directly, 1);

        let mut reapplied_by_low_level = deapplied.clone();
        let low_level = posterior.low_level(1);
        let sl = s2::SubstitutionList { lookups: vec![s2::Lookup { substitutions: vec![low_level] }] };
        s2::apply_all(&mut reapplied_by_low_level, &sl);

        println!("reapplied directly: {}", aug_encode(&reapplied_directly));
        println!("reapplied by low level: {}", aug_encode(&reapplied_by_low_level));
        assert_eq!(aug_encode(&reapplied_directly), aug_encode(&word));
        assert_eq!(aug_encode(&reapplied_by_low_level), aug_encode(&word));

        println!("");
    }

    println!("num_hit = {}", num_hit);
}

#[test]
fn inner_apply_test_1() {
    let word = aug_decode("cat");
    let s = HLSubstitution::decode("c[a]\u{2192}0\u{2192}oa").unwrap();
    let mut result = word.clone();
    assert_eq!(s.apply(&mut result), true);
    assert_eq!(aug_encode(&result), "coat");
}

#[test]
fn inner_apply_test_2() {
    let word = aug_decode("cat");
    let s = HLSubstitution::decode("c[a]\u{2192}1\u{2192}{0}a").unwrap();
    let mut result = word.clone();
    assert_eq!(s.apply(&mut result), true);
    assert_eq!(aug_encode(&result), "c{0}at");
}

#[test]
fn inner_apply_test_3() {
    let word = aug_decode("cat");
    let s = HLSubstitution::decode("c[a]$\u{2192}1\u{2192}{0}a").unwrap();
    let mut result = word.clone();
    assert_eq!(s.apply(&mut result), false);
    assert_eq!(aug_encode(&result), "cat");
}

fn two_rules(first: &str, second: &str) -> HLSubstitutionList {
    HLSubstitutionList {
        substitutions: vec![
            HLSubstitution::decode(first).unwrap(),
            HLSubstitution::decode(second).unwrap(),
        ],
    }
}

#[test]
fn naive_separation_demo_1() {
    let hl_slist = two_rules("a[b]\u{2192}0\u{2192}c", "[a]\u{2192}1\u{2192}d");

    let word = aug_decode("ab");

    let mut working = word.clone();
    for s in &hl_slist.substitutions {
        s.apply_anterior(&mut working);
    }
    assert_eq!(aug_encode(&working), "{1}{0}");
    for s in hl_slist.substitutions.iter().rev() {
        s.apply_posterior(&mut working);
    }

    let directly = working;

    let mut anterior_lookup = vec![];
    let mut posterior_lookup = vec![];

    for s in &hl_slist.substitutions {
        anterior_lookup.extend(s.anterior_low_level());
    }

    for s in hl_slist.substitutions.iter().rev() {
        posterior_lookup.push(s.posterior_low_level());
    }

    let mut working = word.clone();
    s2::apply_all(
        &mut working,
        &s2::SubstitutionList {
            lookups: vec![
                s2::Lookup { substitutions: anterior_lookup },
                s2::Lookup { substitutions: posterior_lookup },
            ],
        },
    );

    let by_low_level = working.clone();

    assert_eq!(aug_encode(&directly), "dc");
    assert_eq!(aug_encode(&by_low_level), "db");
}

#[test]
fn complete_low_level_test_1() {
    let hl_slist = two_rules("a[b]\u{2192}0\u{2192}c", "[a]\u{2192}1\u{2192}d");

    let low_level = hl_slist.low_level();
    let low_level_rendered = render_fea_feature_body(&low_level);

    println!("{}", low_level_rendered);

    assert_eq!(
        low_level_rendered,
        "lookup l0 {
  sub a b' by syn0;
} l0;
lookup l1 {
  sub a' by syn1;
} l1;
lookup l2 {
  sub syn1' by d;
  sub syn0' by c;
} l2;
"
    );
}

#[test]
fn complete_low_level_test_2() {
    let hl_slist = two_rules("a[b]\u{2192}0\u{2192}c", "a[c]\u{2192}1\u{2192}d");

    let low_level = hl_slist.low_level();
    let low_level_rendered = render_fea_feature_body(&low_level);

    println!("{}", low_level_rendered);

    assert_eq!(
        low_level_rendered,
        "lookup l0 {
  sub a b' by syn0;
  sub a c' by syn1;
} l0;
lookup l1 {
  sub syn1' by d;
  sub syn0' by c;
} l1;
"
    );
}

fn both_ways(hl_slist: &HLSubstitutionList, word_str: &str) -> (String, String) {
    let word = aug_decode(word_str);

    let mut directly = word.clone();
    hl_slist.apply(&mut directly);

    let mut by_low_level = word.clone();
    let low_level = hl_slist.low_level();
    println!("{}", render_fea_feature_body(&low_level));
    s2::apply_all(&mut by_low_level, &low_level);

    (aug_encode(&directly), aug_encode(&by_low_level))
}

#[test]
fn complete_low_level_correspondence_test_1() {
    let hl_slist = two_rules("a[b]\u{2192}0\u{2192}c", "[a]\u{2192}1\u{2192}d");
    let (directly, by_low_level) = both_ways(&hl_slist, "ab");
    assert_eq!(directly, "dc");
    assert_eq!(by_low_level, "dc");
}

#[test]
fn complete_low_level_correspondence_test_2() {
    let hl_slist = two_rules("a[b]\u{2192}0\u{2192}c", "a[c]\u{2192}1\u{2192}d");
    let (directly, by_low_level) = both_ways(&hl_slist, "ab");
    assert_eq!(directly, "ac");
    assert_eq!(by_low_level, "ac");
}

#[test]
fn complete_low_level_correspondence_test_3() {
    let hl_slist = two_rules("a[b]\u{2192}0\u{2192}c", "a[{0}]\u{2192}1\u{2192}d");
    let (directly, by_low_level) = both_ways(&hl_slist, "ab");
    assert_eq!(directly, "ad");
    assert_eq!(by_low_level, "ad");
}

#[test]
fn complete_low_level_correspondence_test_3_1() {
    let hl_slist = two_rules("[a]\u{2192}0\u{2192}a", "[b]a\u{2192}1\u{2192}a");
    let (directly, by_low_level) = both_ways(&hl_slist, "ba");
    assert_eq!(directly, by_low_level);
}

#[test]
fn complete_low_level_correspondence_test_3_2() {
    let hl_slist = HLSubstitutionList {
        substitutions: vec![
            HLSubstitution::decode("[x]\u{2192}0\u{2192}p").unwrap(),
            HLSubstitution::decode("[a]\u{2192}1\u{2192}{0}").unwrap(),
            HLSubstitution::decode("{0}[b]\u{2192}2\u{2192}q").unwrap(),
        ],
    };
    let (directly, by_low_level) = both_ways(&hl_slist, "ab");
    assert_eq!(directly, by_low_level);
}

#[test]
fn complete_low_level_correspondence_test_3_3() {
    let hl_slist = two_rules("[-]\u{2192}0\u{2192}a", "[b]$\u{2192}1\u{2192}c");
    let (directly, by_low_level) = both_ways(&hl_slist, "b-");
    assert_eq!(directly, by_low_level);
}

#[test]
fn complete_low_level_correspondence_test_3_4() {
    let hl_slist = two_rules("^[a]\u{2192}0\u{2192}b", "[-]\u{2192}1\u{2192}c");
    let (directly, by_low_level) = both_ways(&hl_slist, "-a");
    assert_eq!(directly, by_low_level);
}

#[test]
fn complete_low_level_correspondence_test_4() {
    let mut rng = rand::thread_rng();

    let glyphs = decode("abc-");

    let mut num_hit: usize = 0;

    for _ in 0..10000 {
        let hl_slist = HLSubstitutionList {
            substitutions: (0..Uniform::new_inclusive(1, 3).sample(&mut rng))
                .map(|i: u32| {
                    let mut pick = |low: usize, high: usize| -> Vec<AugGlyph> {
                        (0..Uniform::new_inclusive(low, high).sample(&mut rng))
                            .map(|_| {
                                if i == 0 {
                                    AugGlyph::Real(
                                        glyphs[Uniform::new(0, glyphs.len()).sample(&mut rng)],
                                    )
                                } else {
                                    match Bernoulli::new(0.1).unwrap().sample(&mut rng) {
                                        false => AugGlyph::Real(
                                            glyphs[Uniform::new(0, glyphs.len()).sample(&mut rng)],
                                        ),
                                        true => AugGlyph::Synthetic(
                                            Uniform::new(0, i).sample(&mut rng),
                                        ),
                                    }
                                }
                            })
                            .collect()
                    };
                    let pre_key = pick(0, 2);
                    let at_key = pick(1, 3);
                    let post_key = pick(0, 2);
                    let content = pick(1, 3);
                    let anterior = Anterior {
                        at_start: Bernoulli::new(0.2).unwrap().sample(&mut rng),
                        at_end: Bernoulli::new(0.2).unwrap().sample(&mut rng),
                        pre_key,
                        at_key,
                        post_key,
                    };
                    HLSubstitution { anterior, posterior: Posterior { content }, mid: i }
                })
                .collect(),
        };

        let word: Vec<AugGlyph> = (0..Uniform::new_inclusive(1, 3).sample(&mut rng))
            .map(|_| AugGlyph::Real(glyphs[Uniform::new(0, glyphs.len()).sample(&mut rng)]))
            .collect();

        let mut directly = word.clone();
        if hl_slist.apply(&mut directly) {
            num_hit += 1
        }

        let mut by_low_level = word.clone();
        let low_level = hl_slist.low_level();
        s2::apply_all(&mut by_low_level, &low_level);

        if aug_encode(&directly) != aug_encode(&by_low_level) {
            println!("word = {}", aug_encode(&word));
            println!("");

            println!("Subs:");
            for s in &hl_slist.substitutions {
                println!("  {}", s.encode());
            }
            println!("");

            println!("{}", render_fea_feature_body(&low_level));
            println!("");
        }

        assert_eq!(aug_encode(&directly), aug_encode(&by_low_level));
    }

    println!("num_hit = {}", num_hit);
}

#[test]
fn decode_errors() {
    assert_eq!(Anterior::decode("a^[b]").err(), Some("^ not at start".to_owned()));
    assert_eq!(Anterior::decode("[b]$a").err(), Some("$ not at end".to_owned()));
    assert_eq!(Anterior::decode("ab").err(), Some("No [".to_owned()));
    assert_eq!(Anterior::decode("[a[b]").err(), Some("No [".to_owned()));
    assert_eq!(Anterior::decode("a[b").err(), Some("No ]".to_owned()));
    assert_eq!(Anterior::decode("a[b]]").err(), Some("No ]".to_owned()));
    assert_eq!(
        HLSubstitution::decode("[a]\u{2192}b").err(),
        Some("Doesn't have 3 parts separated by \u{2192}".to_owned())
    );
    assert_eq!(HLSubstitution::decode("a\u{2192}1\u{2192}b").err(), Some("No [".to_owned()));
    assert!(HLSubstitution::decode("[a]\u{2192}x\u{2192}b").is_err());
    assert!(HLSubstitution::decode("[a]\u{2192}\u{2192}b").is_err());
    assert_eq!(HLSubstitution::decode("[a]\u{2192}+4\u{2192}b").unwrap().mid, 4);
    let two_carets = Anterior::decode("^^[a]").unwrap();
    assert_eq!(two_carets.at_start, false);
    assert_eq!(two_carets.pre_key, vec![]);
}

#[test]
fn list_decode_and_back_refs() {
    let list = HLSubstitutionList::decode(
        "
      [th]\u{2192}0\u{2192}\u{3d1}

      [{0}e]\u{2192}1\u{2192}{0}\u{259}
    ",
    )
    .unwrap();
    assert_eq!(list.substitutions.len(), 2);
    assert_eq!(list.substitutions[1].encode(), "[{0}e]\u{2192}1\u{2192}{0}\u{259}");
    assert_eq!(list.check_back_refs(), Ok(()));
    assert_eq!(list.next_open_mid(), 2);

    assert_eq!(
        HLSubstitutionList::decode("[a]\u{2192}0\u{2192}b\n[c]\u{2192}0\u{2192}d").err(),
        Some("Already contains mid".to_owned())
    );
    assert_eq!(
        HLSubstitutionList::decode("[{1}]\u{2192}0\u{2192}b\n[c]\u{2192}1\u{2192}d").err(),
        Some("Missing back-ref".to_owned())
    );
    assert_eq!(
        HLSubstitutionList::decode("[a]\u{2192}0\u{2192}{0}").err(),
        Some("Missing back-ref".to_owned())
    );
    assert_eq!(HLSubstitutionList::decode("[a]\u{2192}0").err().is_some(), true);
    assert_eq!(HLSubstitutionList::decode("").unwrap().substitutions.len(), 0);
}

#[test]
fn next_open_mid_is_the_least_free_number() {
    let with_mids = |mids: &[u32]| HLSubstitutionList {
        substitutions: mids
            .iter()
            .map(|m| HLSubstitution {
                anterior: Anterior::decode("[a]").unwrap(),
                mid: *m,
                posterior: Posterior { content: vec![] },
            })
            .collect(),
    };
    assert_eq!(with_mids(&[]).next_open_mid(), 0);
    assert_eq!(with_mids(&[0]).next_open_mid(), 1);
    assert_eq!(with_mids(&[1]).next_open_mid(), 0);
    assert_eq!(with_mids(&[2, 0, 1]).next_open_mid(), 3);
    assert_eq!(with_mids(&[0, 1, 3, 5]).next_open_mid(), 2);
    let list = HLSubstitutionList::new(with_mids(&[0, 1]).substitutions);
    assert_eq!(list.substitutions.len(), 2);
}

#[test]
fn list_apply_copied() {
    let list = two_rules("a[b]\u{2192}0\u{2192}c", "[a]\u{2192}1\u{2192}d");
    assert_eq!(list.apply_copied(&aug_decode("ab")), Some(aug_decode("dc")));
    assert_eq!(list.apply_copied(&aug_decode("xy")), None);
    assert_eq!(list.apply_copied_always(&aug_decode("xy")), aug_decode("xy"));
    assert_eq!(list.apply_copied_always(&aug_decode("ab")), aug_decode("dc"));
    assert_eq!(list.apply_posterior_copied(&aug_decode("{1}{0}x")), aug_decode("dcx"));
    let rule = HLSubstitution::decode("c[a]\u{2192}0\u{2192}oa").unwrap();
    assert_eq!(rule.apply_copied(&aug_decode("cat")), Some(aug_decode("coat")));
    assert_eq!(rule.apply_copied(&aug_decode("bat")), None);
    let mut word = aug_decode("coat");
    assert_eq!(rule.deapply_posterior(&mut word), true);
    assert_eq!(word, aug_decode("c{0}t"));
}
