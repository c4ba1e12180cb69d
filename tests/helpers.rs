use claim_registry::{sum, Traffic, TrafficLight};

#[test]
fn traffic_light_times() {
    assert_eq!(Traffic::time(&TrafficLight::Red), 20);
    assert_eq!(Traffic::time(&TrafficLight::Green), 10);
    assert_eq!(Traffic::time(&TrafficLight::Yellow), 5);
}

#[test]
fn sum_refuses_max_item() {
    let list = vec![1, u32::MAX];
    assert_eq!(sum(&list), None);
}

#[test]
fn sum_adds_items() {
    assert_eq!(sum(&[1, 2, 3]), Some(6));
    assert_eq!(sum(&[]), Some(0));
    assert_eq!(sum(&[u32::MAX - 1, 1]), Some(u32::MAX));
}

#[test]
fn sum_refuses_overflow() {
    assert_eq!(sum(&[u32::MAX - 1, 2]), None);
    assert_eq!(sum(&[u32::MAX / 2 + 1, u32::MAX / 2 + 1, 0]), None);
}
