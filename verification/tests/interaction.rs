use raytracer::interaction::{
    attenuate, get_interaction_parameters, interact, Approach, Contact, Side, Step, VopMismatch,
    FULL_TRANSMISSION,
};
use raytracer::ray::Ray;
use raytracer::sop::{BounceResult, SOP};

fn contact(sop: SOP, side: Side) -> Contact {
    Contact {
        sop,
        side,
        vop_above: 4,
        vop_below: 9,
        beyond_critical: false,
        transmission: [FULL_TRANSMISSION; 3],
    }
}

#[test]
fn approach_from_above() {
    let c = contact(SOP::Reflect, Side::Above);
    assert_eq!(
        get_interaction_parameters(4, &c),
        Ok(Approach { reversed: false, leaving: 4, entering: 9 })
    );
}

#[test]
fn approach_from_below_reverses_the_normal() {
    let c = contact(SOP::Reflect, Side::Below);
    assert_eq!(
        get_interaction_parameters(9, &c),
        Ok(Approach { reversed: true, leaving: 9, entering: 4 })
    );
}

#[test]
fn approach_in_the_wrong_medium_fails() {
    assert_eq!(
        get_interaction_parameters(9, &contact(SOP::Reflect, Side::Above)),
        Err(VopMismatch { ray: 9, surface: 4, side: Side::Above })
    );
    assert_eq!(
        get_interaction_parameters(4, &contact(SOP::Refract, Side::Below)),
        Err(VopMismatch { ray: 4, surface: 9, side: Side::Below })
    );
    assert_eq!(
        get_interaction_parameters(0, &contact(SOP::Refract, Side::Below)),
        Err(VopMismatch { ray: 0, surface: 9, side: Side::Below })
    );
}

#[test]
fn reflect_keeps_the_medium() {
    assert_eq!(
        interact(4, &contact(SOP::Reflect, Side::Above)),
        Step::Reflected { reversed: false }
    );
    assert_eq!(
        interact(9, &contact(SOP::Reflect, Side::Below)),
        Step::Reflected { reversed: true }
    );
    assert_eq!(
        interact(9, &contact(SOP::Reflect, Side::Above)),
        Step::Failed(VopMismatch { ray: 9, surface: 4, side: Side::Above })
    );
}

#[test]
fn refract_enters_the_far_medium() {
    assert_eq!(
        interact(4, &contact(SOP::Refract, Side::Above)),
        Step::Refracted { reversed: false, leaving: 4, entering: 9 }
    );
    assert_eq!(
        interact(9, &contact(SOP::Refract, Side::Below)),
        Step::Refracted { reversed: true, leaving: 9, entering: 4 }
    );
    assert_eq!(
        interact(4, &contact(SOP::Refract, Side::Below)),
        Step::Failed(VopMismatch { ray: 4, surface: 9, side: Side::Below })
    );
}

#[test]
fn beyond_the_critical_angle_refract_reflects() {
    let mut c = contact(SOP::Refract, Side::Below);
    c.beyond_critical = true;
    assert_eq!(interact(9, &c), Step::Reflected { reversed: true });
    let mut ray = Ray::new((), 9, 0);
    assert_eq!(ray.bounce_unchecked(&c), BounceResult::Continue);
    assert_eq!(ray.vop, 9);
    // the flag is not read at a mirror
    let mut m = contact(SOP::Reflect, Side::Above);
    m.beyond_critical = true;
    assert_eq!(interact(4, &m), Step::Reflected { reversed: false });
}

#[test]
fn light_and_dark_do_not_look_at_the_media() {
    assert_eq!(interact(77, &contact(SOP::Light(1, 2, 3), Side::Above)), Step::Counted(1, 2, 3));
    assert_eq!(interact(77, &contact(SOP::Dark, Side::Below)), Step::Killed);
}

#[test]
fn light_is_dimmed_channel_by_channel() {
    let mut c = contact(SOP::Light(200, 100, 255), Side::Above);
    c.transmission = [FULL_TRANSMISSION / 2, FULL_TRANSMISSION / 4, 0];
    assert_eq!(interact(4, &c), Step::Counted(100, 25, 0));
}

#[test]
fn attenuate_rounds_to_nearest() {
    assert_eq!(attenuate(255, FULL_TRANSMISSION), 255);
    assert_eq!(attenuate(255, u64::MAX), 255);
    assert_eq!(attenuate(255, 0), 0);
    assert_eq!(attenuate(0, FULL_TRANSMISSION), 0);
    assert_eq!(attenuate(200, FULL_TRANSMISSION / 2), 100);
    // 3 / 2 = 1.5 rounds up, 1 / 4 = 0.25 rounds down
    assert_eq!(attenuate(3, FULL_TRANSMISSION / 2), 2);
    assert_eq!(attenuate(1, FULL_TRANSMISSION / 4), 0);
    assert_eq!(attenuate(1, FULL_TRANSMISSION / 2), 1);
    // round(255 exp(-0.5)) = 155
    let t = ((-0.5f64).exp() * FULL_TRANSMISSION as f64).round() as u64;
    assert_eq!(attenuate(255, t), 155);
}

#[test]
fn attenuate_never_brightens_and_grows_with_transmission() {
    for channel in [0u8, 1, 2, 127, 128, 254, 255] {
        let mut last = 0u8;
        for step in 0..=64u64 {
            let t = FULL_TRANSMISSION / 64 * step;
            let seen = attenuate(channel, t);
            assert!(seen <= channel);
            assert!(seen >= last);
            last = seen;
        }
        assert_eq!(last, channel);
    }
}

#[test]
fn step_as_bounce_result() {
    assert_eq!(Step::Reflected { reversed: true }.result(), BounceResult::Continue);
    assert_eq!(
        Step::Refracted { reversed: false, leaving: 0, entering: 1 }.result(),
        BounceResult::Continue
    );
    assert_eq!(Step::Counted(5, 6, 7).result(), BounceResult::Count(5, 6, 7));
    assert_eq!(Step::Killed.result(), BounceResult::Kill);
    assert_eq!(
        Step::Failed(VopMismatch { ray: 0, surface: 1, side: Side::Above }).result(),
        BounceResult::Error
    );
}

#[test]
fn terminal_behaviours() {
    assert!(SOP::Light(0, 0, 0).is_terminal());
    assert!(SOP::Dark.is_terminal());
    assert!(!SOP::Reflect.is_terminal());
    assert!(!SOP::Refract.is_terminal());
}

#[test]
fn bounce_moves_the_ray_into_the_far_medium() {
    let mut ray = Ray::new("beam", 4, 12);
    assert!(ray.is_traveling());
    assert_eq!(ray.bounce_unchecked(&contact(SOP::Refract, Side::Above)), BounceResult::Continue);
    assert_eq!((ray.beam, ray.vop, ray.pixel_idx, ray.result), ("beam", 9, 12, None));
    assert_eq!(ray.bounce_unchecked(&contact(SOP::Refract, Side::Below)), BounceResult::Continue);
    assert_eq!(ray.vop, 4);
    assert_eq!(ray.bounce_unchecked(&contact(SOP::Reflect, Side::Below)), BounceResult::Error);
    assert_eq!((ray.vop, ray.result), (4, None));
    assert_eq!(
        ray.bounce_unchecked(&contact(SOP::Light(9, 8, 7), Side::Above)),
        BounceResult::Count(9, 8, 7)
    );
    assert_eq!(ray.result, Some([9, 8, 7]));
    assert!(!ray.is_traveling());
}

#[test]
fn advance_kills_a_ray_with_nothing_ahead() {
    let mut ray = Ray::new(0u8, 2, 3);
    assert_eq!(ray.advance(None), BounceResult::Kill);
    assert_eq!((ray.vop, ray.pixel_idx, ray.result), (2, 3, Some([0, 0, 0])));
    let mut other = Ray::new(0u8, 4, 3);
    assert_eq!(other.advance(Some(contact(SOP::Dark, Side::Above))), BounceResult::Kill);
    assert_eq!(other.result, Some([0, 0, 0]));
}
