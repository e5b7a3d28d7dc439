use sim800l_gateway::health::{
    link_dropped, link_drops, mqtt_dropped, mqtt_drops, short, Drops,
};

#[test]
fn counters_are_independent_and_saturate() {
    let mut drops = Drops::default();
    assert_eq!((link_drops(&drops), mqtt_drops(&drops)), (0, 0));

    assert_eq!(link_dropped(&mut drops), 1);
    assert_eq!(link_dropped(&mut drops), 2);
    assert_eq!(mqtt_dropped(&mut drops), 1);
    assert_eq!((link_drops(&drops), mqtt_drops(&drops)), (2, 1));
    drops.link = u32::MAX;
    assert_eq!(link_dropped(&mut drops), u32::MAX);
    assert_eq!(link_drops(&drops), u32::MAX);
}

#[test]
fn short_never_lies_about_magnitude() {
    assert_eq!(short(0).text(), "0");
    assert_eq!(short(7).text(), "7");
    assert_eq!(short(99).text(), "99");
    assert_eq!(short(100).text(), ">99");
    assert_eq!(short(u32::MAX).text(), ">99");
    for n in [0, 9, 10, 99, 100, 1234, u32::MAX] {
        assert!(short(n).text().len() <= 3, "{n}");
    }
}
