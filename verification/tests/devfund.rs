use keryx_miner::devfund::{next_pay_address, DevfundCounter, DEVFUND_ADDRESS, DEVFUND_PERCENT};

#[test]
fn the_fund_gets_its_share_of_any_period() {
    for start in [0u16, 1, 150, 199, 200, 201, 5000, 9999] {
        let mut counter = DevfundCounter { next: start };
        let paid = (0..10_000)
            .filter(|_| next_pay_address(&mut counter, "keryx:mine") == DEVFUND_ADDRESS)
            .count();
        assert_eq!(paid, DEVFUND_PERCENT as usize);
        assert_eq!(counter.next, start);
    }
}

#[test]
fn the_first_requests_pay_the_fund() {
    let mut counter = DevfundCounter::new();
    for _ in 0..200 {
        assert_eq!(next_pay_address(&mut counter, "keryx:mine"), DEVFUND_ADDRESS);
    }
    assert_eq!(next_pay_address(&mut counter, "keryx:mine"), "keryx:mine");
    assert_eq!(counter.next, 201);
}
