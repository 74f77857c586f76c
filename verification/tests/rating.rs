use openfairdb::entities::{Rating, RatingContext, RatingValue};
use openfairdb::index::IndexedRatings;
use openfairdb::rating::{average_of, avg_ratings, AVERAGE_UNIT};

fn rating(context: RatingContext, value: i8) -> Rating {
    Rating {
        uid: "r".into(),
        place_uid: "p".into(),
        created_at: 0,
        archived_at: None,
        title: "t".into(),
        value: RatingValue::new(value),
        context,
        source: None,
    }
}

#[test]
fn rating_values_have_their_range() {
    assert_eq!(RatingValue::min().to_i8(), -1);
    assert_eq!(RatingValue::max().to_i8(), 2);
    assert!(RatingValue::new(-1).is_valid());
    assert!(RatingValue::new(2).is_valid());
    assert!(!RatingValue::new(3).is_valid());
    assert!(!RatingValue::new(-2).is_valid());
    assert_eq!(RatingContext::total_count(), 6);
}

#[test]
fn rating_contexts_have_their_names() {
    let all = [
        (RatingContext::Diversity, "diversity"),
        (RatingContext::Renewable, "renewable"),
        (RatingContext::Fairness, "fairness"),
        (RatingContext::Humanity, "humanity"),
        (RatingContext::Transparency, "transparency"),
        (RatingContext::Solidarity, "solidarity"),
    ];
    for (i, (context, name)) in all.into_iter().enumerate() {
        assert_eq!(context.as_str(), name);
        assert_eq!(RatingContext::from_str(name), Some(context));
        assert_eq!(context.index(), i);
    }
    assert_eq!(RatingContext::from_str("Diversity"), None);
    assert_eq!(RatingContext::from_str(""), None);
}

#[test]
fn average_is_stored_as_its_place_in_the_range() {
    let d = RatingContext::Diversity;
    assert_eq!(AVERAGE_UNIT, u64::MAX / 3);
    // Nothing rated: the average is 0, a third of the way.
    assert_eq!(average_of(&vec![], d), u64::MAX / 3);
    assert_eq!(average_of(&vec![rating(d, -1)], d), 0);
    assert_eq!(average_of(&vec![rating(d, 0)], d), u64::MAX / 3);
    assert_eq!(average_of(&vec![rating(d, 1)], d), u64::MAX / 3 * 2);
    assert_eq!(average_of(&vec![rating(d, 2)], d), u64::MAX);
    assert_eq!(average_of(&vec![rating(d, 2), rating(d, 2)], d), u64::MAX);
    // The average of 1 and 2 is 1.5: five sixths of the way, rounded down.
    assert_eq!(average_of(&vec![rating(d, 1), rating(d, 2)], d), 15_372_286_728_091_293_012);
    assert_eq!(average_of(&vec![rating(d, 1), rating(d, 2)], d), ((u64::MAX as u128 * 5) / 6) as u64);
    // Ratings in other contexts, archived ones and those out of range do
    // not count.
    let mut archived = rating(d, 2);
    archived.archived_at = Some(1);
    let ratings = vec![rating(d, -1), rating(RatingContext::Fairness, 2), archived, rating(d, 5)];
    assert_eq!(average_of(&ratings, d), 0);
    assert_eq!(average_of(&ratings, RatingContext::Fairness), u64::MAX);
    assert_eq!(average_of(&ratings, RatingContext::Humanity), u64::MAX / 3);
}

#[test]
fn total_is_the_mean_of_the_six_averages() {
    let none = avg_ratings(&vec![]);
    let third = u64::MAX / 3;
    assert_eq!(
        none,
        IndexedRatings {
            total: third,
            diversity: third,
            fairness: third,
            humanity: third,
            renewable: third,
            solidarity: third,
            transparency: third,
        }
    );
    let all_best: Vec<Rating> = [
        RatingContext::Diversity,
        RatingContext::Renewable,
        RatingContext::Fairness,
        RatingContext::Humanity,
        RatingContext::Transparency,
        RatingContext::Solidarity,
    ]
    .into_iter()
    .map(|c| rating(c, 2))
    .collect();
    assert_eq!(avg_ratings(&all_best).total, u64::MAX);
    let one = avg_ratings(&vec![rating(RatingContext::Solidarity, 2)]);
    assert_eq!(one.solidarity, u64::MAX);
    assert_eq!(one.diversity, third);
    assert_eq!(one.total, ((5 * third as u128 + u64::MAX as u128) / 6) as u64);
    assert!(one.total > none.total);
}

#[test]
fn better_average_is_stored_as_a_greater_number() {
    let of = |values: &[i8]| {
        let ratings: Vec<Rating> = values.iter().map(|v| rating(RatingContext::Fairness, *v)).collect();
        average_of(&ratings, RatingContext::Fairness)
    };
    // Averages of -1, -1/2, 0, 1/3, 1/2, 1, 5/3 and 2.
    let ascending = [
        of(&[-1, -1]),
        of(&[-1, 0]),
        of(&[0, 0, 0]),
        of(&[-1, 0, 2]),
        of(&[0, 1]),
        of(&[1]),
        of(&[2, 2, 1]),
        of(&[2]),
    ];
    for pair in ascending.windows(2) {
        assert!(pair[0] < pair[1]);
    }
    assert_eq!(of(&[0, 2]), of(&[1, 1, 1]));
    assert_eq!(of(&[]), of(&[0]));
}
