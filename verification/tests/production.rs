use market_sim::market::Market;
use market_sim::strategy::ProductionStrategy;

fn farmer_strategy(duration: u32) -> ProductionStrategy {
    let mut farmer = ProductionStrategy::new();
    farmer.add_input("water", 1);
    farmer.add_output("food", 1);
    farmer.duration(duration);
    farmer
}

fn farmer_market(duration: u32) -> (Market, usize) {
    let mut market = Market::default();
    assert!(market.add_production_strategy("farmer", farmer_strategy(duration)));
    let agent_index = market.add_agent();
    assert!(market.assign_production_strategy(agent_index, "farmer"));
    (market, agent_index)
}

#[test]
fn production_step() {
    let mut market = Market::default();

    let mut farmer = ProductionStrategy::new();
    farmer.add_input("water", 1);
    farmer.add_output("food", 1);
    farmer.duration(1);
    assert!(market.add_production_strategy("farmer", farmer));

    let agent_index = market.add_agent();
    assert!(market.assign_production_strategy(agent_index, "farmer"));

    {
        let agent = market.agents.last().unwrap();
        assert_eq!(agent.producers.last().unwrap().progress, 0);
        assert_eq!(agent.inventories.get("water").unwrap().amount, 10);
        assert_eq!(agent.inventories.get("food").unwrap().amount, 10);
    }

    market.run_production_step();

    {
        let agent = market.agents.last().unwrap();
        assert_eq!(agent.producers.last().unwrap().progress, 1);
        assert_eq!(agent.inventories.get("water").unwrap().amount, 10);
        assert_eq!(agent.inventories.get("food").unwrap().amount, 10);
    }

    market.run_production_step();

    {
        let agent = market.agents.last().unwrap();
        assert_eq!(agent.producers.last().unwrap().progress, 0);
        assert_eq!(agent.inventories.get("water").unwrap().amount, 9);
        assert_eq!(agent.inventories.get("food").unwrap().amount, 11);
    }
}

#[test]
fn fresh_farmer_agent_before_any_step() {
    let (market, agent_index) = farmer_market(1);
    let agent = &market.agents[agent_index];
    assert_eq!(agent.inventories.get("water").unwrap().amount, 10);
    assert_eq!(agent.inventories.get("food").unwrap().amount, 10);
    assert_eq!(agent.inventories.get("water").unwrap().capacity, 100);
    assert_eq!(agent.inventories.get("food").unwrap().capacity, 100);
    assert_eq!(agent.producers.last().unwrap().progress, 0);
    assert_eq!(agent.inventory_amount(&"water".to_string()), 10);
    assert_eq!(agent.inventory_capacity(&"food".to_string()), 100);
    assert_eq!(agent.inventory_amount(&"gold".to_string()), 0);
    assert_eq!(agent.inventory_capacity(&"gold".to_string()), 0);
}

#[test]
fn first_step_reserves_inputs_without_removing_stock() {
    let (mut market, agent_index) = farmer_market(1);
    market.run_production_step();
    let agent = &market.agents[agent_index];
    let water = agent.inventories.get("water").unwrap();
    assert_eq!(water.reserved, 1);
    assert_eq!(water.amount, 10);
    assert_eq!(agent.inventories.get("food").unwrap().amount, 10);
    assert_eq!(agent.producers.last().unwrap().progress, 1);
}

#[test]
fn second_step_completes_the_job() {
    let (mut market, agent_index) = farmer_market(1);
    market.run_production_step();
    market.run_production_step();
    let agent = &market.agents[agent_index];
    let water = agent.inventories.get("water").unwrap();
    assert_eq!(water.amount, 9);
    assert_eq!(water.reserved, 0);
    assert_eq!(agent.inventories.get("food").unwrap().amount, 11);
    assert_eq!(agent.producers.last().unwrap().progress, 0);
}

#[test]
fn starved_producer_never_starts() {
    let (mut market, agent_index) = farmer_market(1);
    // Drain the water entirely; nothing ever replenishes it.
    let mut water = *market.agents[agent_index].inventories.get("water").unwrap();
    water.amount = 0;
    market.agents[agent_index].inventories.update("water", water);

    for _ in 0..5 {
        market.run_production_step();
        let agent = &market.agents[agent_index];
        assert_eq!(agent.producers.last().unwrap().progress, 0);
        assert_eq!(agent.inventories.get("water").unwrap().amount, 0);
        assert_eq!(agent.inventories.get("water").unwrap().reserved, 0);
        assert_eq!(agent.inventories.get("food").unwrap().amount, 10);
    }
}

#[test]
fn blocked_completion_waits_for_room() {
    let (mut market, agent_index) = farmer_market(1);
    // No free room for food: capacity equals the stored amount.
    let mut food = *market.agents[agent_index].inventories.get("food").unwrap();
    food.capacity = food.amount;
    market.agents[agent_index].inventories.update("food", food);

    // First step starts the job and reserves the water.
    market.run_production_step();
    // The job is ready but blocked: progress freezes at the duration and the
    // reservation is held, tick after tick.
    for _ in 0..4 {
        market.run_production_step();
        let agent = &market.agents[agent_index];
        assert_eq!(agent.producers.last().unwrap().progress, 1);
        assert_eq!(agent.inventories.get("water").unwrap().amount, 10);
        assert_eq!(agent.inventories.get("water").unwrap().reserved, 1);
        assert_eq!(agent.inventories.get("food").unwrap().amount, 10);
    }

    // Food gains room externally; the next step completes the job.
    let mut food = *market.agents[agent_index].inventories.get("food").unwrap();
    food.capacity = 100;
    market.agents[agent_index].inventories.update("food", food);
    market.run_production_step();
    let agent = &market.agents[agent_index];
    assert_eq!(agent.producers.last().unwrap().progress, 0);
    assert_eq!(agent.inventories.get("water").unwrap().amount, 9);
    assert_eq!(agent.inventories.get("water").unwrap().reserved, 0);
    assert_eq!(agent.inventories.get("food").unwrap().amount, 11);
}

#[test]
fn multi_tick_job_accumulates_before_completing() {
    let (mut market, agent_index) = farmer_market(3);
    let progress_after = |market: &Market| market.agents[agent_index].producers.last().unwrap().progress;

    market.run_production_step();
    assert_eq!(progress_after(&market), 1);
    market.run_production_step();
    assert_eq!(progress_after(&market), 2);
    market.run_production_step();
    assert_eq!(progress_after(&market), 3);
    // The water stays stored (only reserved) until the job completes.
    assert_eq!(market.agents[agent_index].inventories.get("water").unwrap().amount, 10);
    assert_eq!(market.agents[agent_index].inventories.get("water").unwrap().reserved, 1);

    market.run_production_step();
    assert_eq!(progress_after(&market), 0);
    assert_eq!(market.agents[agent_index].inventories.get("water").unwrap().amount, 9);
    assert_eq!(market.agents[agent_index].inventories.get("food").unwrap().amount, 11);
}

#[test]
fn producers_share_inventories_in_stored_order() {
    // Two farmer slots, but only one unit of unreserved water: the first
    // producer reserves it, the second cannot start the same tick.
    let mut market = Market::default();
    assert!(market.add_production_strategy("farmer", farmer_strategy(1)));
    let agent_index = market.add_agent();
    assert!(market.assign_production_strategy(agent_index, "farmer"));
    assert!(market.assign_production_strategy(agent_index, "farmer"));

    let mut water = *market.agents[agent_index].inventories.get("water").unwrap();
    water.amount = 1;
    market.agents[agent_index].inventories.update("water", water);

    market.run_production_step();
    let agent = &market.agents[agent_index];
    assert_eq!(agent.producers[0].progress, 1);
    assert_eq!(agent.producers[1].progress, 0);
    assert_eq!(agent.inventories.get("water").unwrap().reserved, 1);
}

#[test]
fn strategies_are_registered_once() {
    let mut market = Market::default();
    assert!(market.add_production_strategy("farmer", farmer_strategy(1)));
    // The name is taken: the second registration is refused.
    assert!(!market.add_production_strategy("farmer", farmer_strategy(2)));
    // An unusable strategy is refused too.
    let broken = ProductionStrategy { inputs: Vec::new(), outputs: Vec::new(), duration: 0 };
    assert!(!market.add_production_strategy("idler", broken));
}

#[test]
fn assignment_needs_known_agent_and_strategy() {
    let mut market = Market::default();
    assert!(market.add_production_strategy("farmer", farmer_strategy(1)));
    let agent_index = market.add_agent();
    assert!(!market.assign_production_strategy(agent_index, "miner"));
    assert!(!market.assign_production_strategy(agent_index + 1, "farmer"));
    assert!(market.assign_production_strategy(agent_index, "farmer"));
}
