use kas::geom::{Margins, Size};
use kas::layout::StretchPolicy::{Filler, Fixed, HighUtility, LowUtility, Maximise};
use kas::layout::{AxisInfo, SizeRules, StretchPolicy};

fn rules(min: u32, ideal: u32, m0: u16, m1: u16, stretch: StretchPolicy) -> SizeRules {
    SizeRules::new(min, ideal, (m0, m1), stretch)
}

#[test]
fn new_raises_the_ideal_to_the_minimum() {
    let r = SizeRules::new(10, 4, (1, 2), StretchPolicy::Filler);
    assert_eq!((r.min_size(), r.ideal_size(), r.margins(), r.stretch()), (10, 10, (1, 2), StretchPolicy::Filler));
    let e = SizeRules::empty(StretchPolicy::Maximise);
    assert_eq!((e.min_size(), e.ideal_size(), e.margins(), e.stretch()), (0, 0, (0, 0), StretchPolicy::Maximise));
    let f = SizeRules::fixed(7, (3, 4));
    assert_eq!((f.min_size(), f.ideal_size(), f.margins(), f.stretch()), (7, 7, (3, 4), StretchPolicy::Fixed));
}

#[test]
fn appended_adds_sizes_and_the_larger_margin() {
    let a = rules(10, 20, 1, 4, StretchPolicy::Fixed);
    let b = rules(5, 7, 6, 2, StretchPolicy::Filler);
    let c = a.appended(b);
    assert_eq!(c.min_size(), 10 + 5 + 6);
    assert_eq!(c.ideal_size(), 20 + 7 + 6);
    assert_eq!(c.margins(), (1, 2));
    assert_eq!(c.stretch(), StretchPolicy::Filler);
}

#[test]
fn appended_is_not_commutative() {
    let a = rules(10, 20, 1, 4, StretchPolicy::Fixed);
    let b = rules(5, 7, 6, 2, StretchPolicy::Filler);
    assert_eq!(a.appended(b).margins(), (1, 2));
    assert_eq!(b.appended(a).margins(), (6, 4));
    assert_eq!(b.appended(a).min_size(), 5 + 10 + 2);
}

#[test]
fn appended_is_associative() {
    let a = rules(10, 20, 1, 4, StretchPolicy::Fixed);
    let b = rules(5, 7, 6, 2, StretchPolicy::Filler);
    let c = rules(1, 100, 9, 9, StretchPolicy::LowUtility);
    assert_eq!(a.appended(b).appended(c), a.appended(b.appended(c)));
    assert_eq!(a.appended(b).appended(c).min_size(), 10 + 6 + 5 + 9 + 1);
    // also where the sum is clamped
    let big = rules(u32::MAX - 3, u32::MAX, 0, 0, StretchPolicy::Fixed);
    assert_eq!(big.appended(a).appended(b), big.appended(a.appended(b)));
    assert_eq!(big.appended(a).min_size(), u32::MAX);
}

#[test]
fn max_takes_each_part_from_the_larger() {
    let a = rules(10, 20, 1, 4, StretchPolicy::Maximise);
    let b = rules(5, 27, 6, 2, StretchPolicy::Filler);
    let c = a.max(b);
    assert_eq!(c.min_size(), 10);
    assert_eq!(c.ideal_size(), 27);
    assert_eq!(c.margins(), (6, 4));
    assert_eq!(c.stretch(), StretchPolicy::Maximise);
}

#[test]
fn max_is_commutative_and_associative() {
    let a = rules(10, 20, 1, 4, StretchPolicy::Maximise);
    let b = rules(5, 27, 6, 2, StretchPolicy::Filler);
    let c = rules(12, 12, 0, 7, StretchPolicy::HighUtility);
    assert_eq!(a.max(b), b.max(a));
    assert_eq!(a.max(b).max(c), a.max(b.max(c)));
    assert_eq!(a.max(b).max(c), c.max(a).max(b));
}

#[test]
fn stretch_policies_are_ordered() {
    assert_eq!([Fixed.rank(), Filler.rank(), LowUtility.rank(), HighUtility.rank(), Maximise.rank()], [0, 1, 2, 3, 4]);
    assert_eq!(Filler.stronger(HighUtility), HighUtility);
    assert_eq!(Maximise.stronger(Fixed), Maximise);
}

#[test]
fn extract_fixed_picks_the_axis() {
    let m = Margins { horiz: (1, 2), vert: (3, 4) };
    let h = SizeRules::extract_fixed(false, Size(10, 20), m);
    let v = SizeRules::extract_fixed(true, Size(10, 20), m);
    assert_eq!((h.min_size(), h.ideal_size(), h.margins()), (10, 10, (1, 2)));
    assert_eq!((v.min_size(), v.ideal_size(), v.margins()), (20, 20, (3, 4)));
}

#[test]
fn a_frame_surrounds_content() {
    let content = rules(10, 20, 1, 2, StretchPolicy::Filler);
    let frame = SizeRules::fixed(8, (3, 4));
    let inside = content.surrounded_by(frame, true);
    assert_eq!((inside.min_size(), inside.ideal_size(), inside.margins()), (10 + 8 + 3, 20 + 8 + 3, (3, 4)));
    assert_eq!(inside.stretch(), StretchPolicy::Filler);
    let outside = content.surrounded_by(frame, false);
    assert_eq!((outside.min_size(), outside.ideal_size(), outside.margins()), (18, 28, (3, 4)));
    let narrow = SizeRules::fixed(8, (0, 1));
    assert_eq!(content.surrounded_by(narrow, false).margins(), (1, 2));
}

#[test]
fn sum_and_max_of_many() {
    let all = vec![
        rules(10, 20, 1, 4, StretchPolicy::Fixed),
        rules(5, 7, 6, 2, StretchPolicy::Filler),
        rules(1, 100, 9, 9, StretchPolicy::LowUtility),
    ];
    let sum = SizeRules::sum(&all);
    assert_eq!((sum.min_size(), sum.ideal_size(), sum.margins()), (31, 142, (1, 9)));
    assert_eq!(sum.stretch(), StretchPolicy::LowUtility);
    let max = SizeRules::max_of(&all);
    assert_eq!((max.min_size(), max.ideal_size(), max.margins()), (10, 100, (9, 9)));
    let none: Vec<SizeRules> = Vec::new();
    assert_eq!(SizeRules::sum(&none), SizeRules::empty(StretchPolicy::Fixed));
    assert_eq!(SizeRules::max_of(&none), SizeRules::empty(StretchPolicy::Fixed));
}

#[test]
fn fixed_widgets_keep_their_ideal_size() {
    let all = vec![rules(10, 20, 0, 0, StretchPolicy::Fixed), rules(5, 30, 0, 0, StretchPolicy::Fixed)];
    assert_eq!(SizeRules::solve_seq(&all, 100), vec![20, 30]);
    assert_eq!(SizeRules::solve_seq(&all, 50), vec![20, 30]);
}

#[test]
fn too_little_space_gives_minimum_sizes() {
    let all = vec![rules(10, 20, 0, 0, StretchPolicy::Maximise), rules(5, 30, 0, 0, StretchPolicy::Fixed)];
    assert_eq!(SizeRules::solve_seq(&all, 49), vec![10, 5]);
    // the margin between the two counts
    let apart = vec![rules(10, 20, 0, 3, StretchPolicy::Fixed), rules(5, 30, 1, 0, StretchPolicy::Fixed)];
    assert_eq!(SizeRules::solve_seq(&apart, 52), vec![10, 5]);
    assert_eq!(SizeRules::solve_seq(&apart, 53), vec![20, 30]);
}

#[test]
fn the_strongest_widgets_share_what_is_left() {
    let all = vec![
        rules(10, 20, 0, 0, StretchPolicy::HighUtility),
        rules(5, 30, 0, 0, StretchPolicy::Filler),
        rules(5, 10, 0, 0, StretchPolicy::HighUtility),
        rules(0, 0, 0, 0, StretchPolicy::HighUtility),
    ];
    // 60 are needed, 11 are left: 3 each and one more for the first two
    assert_eq!(SizeRules::solve_seq(&all, 71), vec![24, 30, 14, 3]);
    assert_eq!(SizeRules::solve_seq(&all, 60), vec![20, 30, 10, 0]);
    assert_eq!(SizeRules::solve_seq(&all, 63), vec![21, 30, 11, 1]);
    let none: Vec<SizeRules> = Vec::new();
    assert_eq!(SizeRules::solve_seq(&none, 10), Vec::<u32>::new());
}

#[test]
fn axis_info_knows_the_other_axis() {
    let a = AxisInfo::new(true, Some(40));
    assert!(a.is_vertical());
    assert!(!a.is_horizontal());
    assert_eq!(a.fixed(false), Some(40));
    assert_eq!(a.fixed(true), None);
}
