use shotr_core::zoom::Zoom;

#[test]
fn stepping_walks_the_ladder_in_both_directions() {
    let mut z = Zoom::Percent(100);
    for expect in [150, 200, 300, 400, 800] {
        z = z.stepped(100, true);
        assert_eq!(z, Zoom::Percent(expect));
    }
    for expect in [400, 300, 200, 150, 100, 75, 50, 33, 25] {
        z = z.stepped(100, false);
        assert_eq!(z, Zoom::Percent(expect));
    }
}

#[test]
fn stepping_past_either_end_stays_put() {
    let bottom = Zoom::Percent(25).stepped(100, false);
    assert_eq!(bottom, Zoom::Percent(25), "nothing below the first step");
    let top = Zoom::Percent(800).stepped(100, true);
    assert_eq!(top, Zoom::Percent(800), "nothing above the last step");
}

#[test]
fn stepping_from_fit_continues_from_what_is_on_screen() {
    assert_eq!(Zoom::Fit.stepped(33, true), Zoom::Percent(50));
    assert_eq!(Zoom::Fit.stepped(33, false), Zoom::Percent(25));
    // Between two rungs, each direction goes to the nearer rung on its side.
    assert_eq!(Zoom::Fit.stepped(60, true), Zoom::Percent(75));
    assert_eq!(Zoom::Fit.stepped(60, false), Zoom::Percent(50));
}

#[test]
fn free_percentages_are_clamped_at_both_ends() {
    assert_eq!(Zoom::clamped(0), Zoom::Percent(Zoom::MIN));
    assert_eq!(Zoom::clamped(100_000), Zoom::Percent(Zoom::MAX));
    assert_eq!(Zoom::clamped(120), Zoom::Percent(120));
    // Off the ladder entirely, a step still stays inside the limits.
    assert_eq!(Zoom::Percent(5).stepped(5, false), Zoom::Percent(Zoom::MIN));
    assert_eq!(Zoom::Percent(5000).stepped(5000, true), Zoom::Percent(Zoom::MAX));
}
