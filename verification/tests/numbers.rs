use dream_tts::murmur::{murmur64a, thinc_hash};
use dream_tts::num2words::{cardinal, decimal, ordinal, year};

/// The joins that are easy to get subtly wrong.
#[test]
fn matches_num2words() {
    assert_eq!(cardinal(1001), "one thousand and one");
    assert_eq!(cardinal(1100), "one thousand, one hundred");
    assert_eq!(cardinal(1234), "one thousand, two hundred and thirty-four");
    assert_eq!(cardinal(1020003), "one million, twenty thousand and three");
    assert_eq!(cardinal(101000), "one hundred and one thousand");
    assert_eq!(ordinal(1234), "one thousand, two hundred and thirty-fourth");
    assert_eq!(ordinal(40), "fortieth");
    assert_eq!(year(905), "nine oh-five");
    assert_eq!(year(2100), "twenty-one hundred");
    assert_eq!(year(2000), "two thousand");
    assert_eq!(decimal("12.30").unwrap(), "twelve point three");
}

#[test]
fn small_and_negative_numbers() {
    assert_eq!(cardinal(0), "zero");
    assert_eq!(cardinal(19), "nineteen");
    assert_eq!(cardinal(21), "twenty-one");
    assert_eq!(cardinal(110), "one hundred and ten");
    assert_eq!(cardinal(-7), "minus seven");
    assert_eq!(
        cardinal(i64::MAX),
        "nine quintillion, two hundred and twenty-three quadrillion, three hundred and \
         seventy-two trillion, thirty-six billion, eight hundred and fifty-four million, seven \
         hundred and seventy-five thousand, eight hundred and seven"
    );
}

#[test]
fn ordinals_change_the_last_word_only() {
    assert_eq!(ordinal(1), "first");
    assert_eq!(ordinal(2), "second");
    assert_eq!(ordinal(3), "third");
    assert_eq!(ordinal(5), "fifth");
    assert_eq!(ordinal(8), "eighth");
    assert_eq!(ordinal(9), "ninth");
    assert_eq!(ordinal(12), "twelfth");
    assert_eq!(ordinal(21), "twenty-first");
    assert_eq!(ordinal(100), "one hundredth");
    assert_eq!(ordinal(4), "fourth");
}

#[test]
fn years_are_read_in_two_halves() {
    assert_eq!(year(1984), "nineteen eighty-four");
    assert_eq!(year(1900), "nineteen hundred");
    assert_eq!(year(1905), "nineteen oh-five");
    assert_eq!(year(2005), "two thousand and five");
    assert_eq!(year(99), "ninety-nine");
    assert_eq!(year(12345), "twelve thousand, three hundred and forty-five");
    assert_eq!(year(-44), "minus forty-four");
}

#[test]
fn decimals_are_read_digit_by_digit() {
    assert_eq!(decimal("3.14").unwrap(), "three point one four");
    assert_eq!(decimal("-2.5").unwrap(), "minus two point five");
    assert_eq!(decimal(".5").unwrap(), "zero point five");
    assert_eq!(decimal("7").unwrap(), "seven");
    assert_eq!(decimal("7.000").unwrap(), "seven");
    assert_eq!(decimal("3.140"), decimal("3.14"));
    assert_eq!(decimal("+7").unwrap(), "seven");
    assert_eq!(decimal("seven"), None);
    assert_eq!(decimal("7.x"), None);
    assert_eq!(decimal("99999999999999999999"), None);
    assert_eq!(decimal("9223372036854775807").map(|s| s.len() > 100), Some(true));
    assert_eq!(decimal("9223372036854775808"), None);
}

#[test]
fn buckets_tell_keys_apart() {
    let keys = [0u64, 1, 2, 1 << 32, 1 << 63, u64::MAX, 7425985699627899538];
    for seed in [0u32, 8, u32::MAX] {
        for (i, a) in keys.iter().enumerate() {
            for b in &keys[i + 1..] {
                assert_ne!(thinc_hash(*a, seed), thinc_hash(*b, seed), "{a} {b} {seed}");
            }
        }
    }
}

/// Values of the reference tables of the tagger.
#[test]
fn matches_upstream() {
    assert_eq!(murmur64a(b"the", 1), 7425985699627899538);
    assert_eq!(murmur64a("naïve".as_bytes(), 1), 16224804062388677344);
    assert_eq!(
        thinc_hash(7425985699627899538, 8),
        [2332737498, 1315472909, 1351622599, 1973209364]
    );
}
