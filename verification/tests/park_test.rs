use std::sync::Arc;
use parque_concurrente::config::{read_configuration, ParkConfig};
use parque_concurrente::customer::Customer;
use parque_concurrente::game::Game;
use parque_concurrente::game_administrator::GameAdministrator;
use parque_concurrente::park::{Park, GAME_DURATION};

const PARK_YAML: &str = "park:\n  people: 4\n  capacity: 10\n  games-cost: [1.0, 2.0, 3.0]\n";

fn test_park() -> Park {
    Park::new(0, read_configuration(PARK_YAML).unwrap())
}

#[test]
fn pays_9_has_cash_9_less() {
    let park = test_park();
    let customers_cash = 2000;
    let pay_amount = 900;
    let mut customer = Customer::new(0, customers_cash);

    // The park is not open, so a visit takes no game.
    assert!(!customer.keeps_playing(&park));
    customer.pay(pay_amount);

    assert_eq!(customer.cash, 1100);
}

#[test]
fn charge_10_for_game_have_10_more() {
    let customers_cash = 2000;
    let mut customer = Customer::new(0, customers_cash);
    let game = Game { id: 1, duration_secs: 2 };
    let cost = 1000;
    let mut admin = GameAdministrator::new(game, cost, 10000);

    admin.charge(&mut customer);
    let expected = 11000;
    let result = admin.get_cash();

    assert_eq!(result, expected);
    assert_eq!(customer.cash, 1000);
}

#[test]
fn cant_afford_game_cost_20_if_customer_have_10() {
    let game = Game { id: 1, duration_secs: 2 };
    let cost = 2000;
    let admin = GameAdministrator::new(game, cost, 1000);
    let expected = false;
    let cash = 1000;

    let result = admin.is_affordable(cash);

    assert_eq!(result, expected);
    assert!(admin.is_affordable(2000));
}

/// One customer's visit, as the customer's thread runs it, without the waits.
fn visit(park: &mut Park, customer: &mut Customer) -> Vec<usize> {
    let mut taken = Vec::new();
    while customer.keeps_playing(park) {
        let game = customer.pick_game(park);
        park.add_to_entrance_queue(customer, game);
        let boarded = park.start_ride(game).unwrap();
        assert_eq!(boarded.customer, customer.id);
        assert!(Arc::ptr_eq(&boarded.signal, &customer.entrance_semaphore));
        park.add_to_exit_queue(customer, game);
        let left = park.end_ride(game);
        assert_eq!(left.len(), 1);
        assert!(Arc::ptr_eq(&left[0].signal, &customer.exit_semaphore));
        taken.push(game);
    }
    taken
}

#[test]
fn customers_spend_40_park_ends_with_cash_40() {
    let mut park = test_park();
    park.open();
    let customers_amount: i64 = 4;
    let customers_cash: i64 = 1000;
    for i in 0..customers_amount {
        let mut customer = Customer::new(i, customers_cash);
        visit(&mut park, &mut customer);
        assert_eq!(customer.cash, 0);
    }
    let total_customer_cash = customers_amount * customers_cash;
    assert_eq!(park.get_cash(), total_customer_cash);
}

#[test]
fn new_park_is_closed_and_empty() {
    let park = Park::new(500, ParkConfig::new(3, 2, vec![100]));
    assert!(!park.is_open());
    assert_eq!(park.get_cash(), 500);
    assert_eq!(park.number_of_games(), 1);
    assert!(!park.affords_any_game(1000));
}

#[test]
fn open_sets_up_one_administrator_per_game() {
    let mut park = Park::new(500, ParkConfig::new(3, 2, vec![100, 250]));
    park.open();
    assert!(park.is_open());
    assert_eq!(park.get_cash(), 500);
    assert!(park.can_afford_game(100, 0));
    assert!(!park.can_afford_game(100, 1));
    assert!(park.can_afford_game(250, 1));
    assert!(park.affords_any_game(100));
    assert!(!park.affords_any_game(99));
    park.close();
    assert!(!park.is_open());
}

#[test]
fn boarding_moves_the_cost_into_the_till() {
    let mut park = Park::new(500, ParkConfig::new(3, 2, vec![100, 250]));
    park.open();
    let mut customer = Customer::new(7, 1000);
    park.add_to_entrance_queue(&mut customer, 1);
    assert_eq!(customer.cash, 750);
    assert_eq!(park.get_cash(), 750);
    assert_eq!(park.get_cash() + customer.cash, 500 + 1000);
}

#[test]
fn riders_board_in_the_order_they_queued() {
    let mut park = Park::new(0, ParkConfig::new(3, 2, vec![100]));
    park.open();
    let mut first = Customer::new(1, 1000);
    let mut second = Customer::new(2, 1000);
    park.add_to_entrance_queue(&mut first, 0);
    park.add_to_entrance_queue(&mut second, 0);
    assert_eq!(park.start_ride(0).unwrap().customer, 1);
    assert_eq!(park.start_ride(0).unwrap().customer, 2);
    assert!(park.start_ride(0).is_none());
    park.add_to_exit_queue(&second, 0);
    park.add_to_exit_queue(&first, 0);
    let leaving: Vec<i64> = park.end_ride(0).iter().map(|t| t.customer).collect();
    assert_eq!(leaving, vec![2, 1]);
    assert!(park.end_ride(0).is_empty());
    assert_eq!(park.get_cash(), 200);
}

#[test]
fn choose_game_keeps_an_affordable_draw() {
    let mut park = Park::new(0, ParkConfig::new(3, 2, vec![300, 100, 200]));
    park.open();
    let customer = Customer::new(1, 250);
    assert_eq!(customer.choose_game(&park, 2), 2);
    assert_eq!(customer.choose_game(&park, 1), 1);
    // The drawn game is too dear: the first one the customer can pay for.
    assert_eq!(customer.choose_game(&park, 0), 1);
}

#[test]
fn pick_game_is_always_affordable() {
    let mut park = Park::new(0, ParkConfig::new(3, 2, vec![300, 100, 200]));
    park.open();
    let customer = Customer::new(1, 150);
    for _ in 0..50 {
        assert_eq!(customer.pick_game(&park), 1);
    }
    let rich = Customer::new(2, 1000);
    for _ in 0..50 {
        assert!(rich.pick_game(&park) < 3);
    }
}

#[test]
fn visit_ends_when_no_game_is_affordable() {
    let mut park = Park::new(0, ParkConfig::new(3, 2, vec![300, 200]));
    park.open();
    let mut customer = Customer::new(1, 450);
    visit(&mut park, &mut customer);
    assert!(customer.cash >= 0);
    assert!(customer.cash < 200);
    assert_eq!(park.get_cash() + customer.cash, 450);
}

#[test]
fn reopening_adds_the_games_again() {
    let mut park = Park::new(100, ParkConfig::new(3, 2, vec![50]));
    park.open();
    park.close();
    park.open();
    assert!(park.can_afford_game(50, 1));
    assert_eq!(park.get_cash(), 100);
}

#[test]
fn game_duration_is_two_seconds() {
    assert_eq!(GAME_DURATION, 2);
}

#[test]
fn tickets_share_the_customer_semaphore() {
    let customer = Customer::new(3, 100);
    let ticket = customer.entrance_ticket();
    let copy = ticket.clone();
    assert_eq!(copy.customer, 3);
    assert!(Arc::ptr_eq(&copy.signal, &customer.entrance_semaphore));
    assert!(!Arc::ptr_eq(&customer.exit_ticket().signal, &customer.entrance_semaphore));
}

#[test]
fn customer_without_cash_stops_playing() {
    let mut park = Park::new(0, ParkConfig::new(3, 2, vec![0]));
    park.open();
    let customer = Customer::new(1, 0);
    assert!(!customer.keeps_playing(&park));
    let other = Customer::new(2, 1);
    assert!(other.keeps_playing(&park));
}

#[test]
fn later_arrivals_board_after_those_waiting() {
    let mut park = Park::new(0, ParkConfig::new(3, 2, vec![100]));
    park.open();
    let mut a = Customer::new(1, 1000);
    let mut b = Customer::new(2, 1000);
    let mut c = Customer::new(3, 1000);
    park.add_to_entrance_queue(&mut a, 0);
    park.add_to_entrance_queue(&mut b, 0);
    assert_eq!(park.start_ride(0).unwrap().customer, 1);
    park.add_to_entrance_queue(&mut c, 0);
    assert_eq!(park.start_ride(0).unwrap().customer, 2);
    assert_eq!(park.start_ride(0).unwrap().customer, 3);
    assert!(park.start_ride(0).is_none());
}
