use crossbeam_queue::SegQueue;
use pool_stats::aggregator::{assemble, reap, StatsPass};
use pool_stats::data_actor::{Ack, ActorAction, ActorEvent, DataActor, Rejected};
use pool_stats::endpoint::{
    get_stats, post_report, STATS_CACHE_CONTROL, STATS_CONTENT_TYPE, STATUS_INTERNAL_SERVER_ERROR,
    STATUS_OK,
};
use pool_stats::keymap::KeyMap;
use pool_stats::pool_actor::{PoolActor, PoolActorCommand};
use pool_stats::pools::Pools;
use pool_stats::publisher::SnapshotPublisher;
use pool_stats::queue::{drain, submit, StatsAggregator};
use pool_stats::report::Report;
use pool_stats::stats::{AllStats, PoolStats};

fn rep(worker: &str, pool: &str, hashrate: f64, temperature: f64, timestamp: u64) -> Report {
    Report {
        worker_id: worker.to_string(),
        pool: pool.to_string(),
        hashrate_bits: hashrate.to_bits(),
        temperature_bits: temperature.to_bits(),
        timestamp,
    }
}

fn avg(bits: &[u64]) -> f64 {
    if bits.is_empty() {
        0.0
    } else {
        bits.iter().map(|b| f64::from_bits(*b)).sum::<f64>() / bits.len() as f64
    }
}

fn names(stats: &AllStats) -> Vec<String> {
    (0..stats.pools.len()).map(|i| stats.pools.key_at(i).unwrap().clone()).collect()
}

fn retained(pools: &Pools, key: &str) -> usize {
    pools.window(key).map(|w| w.len()).unwrap_or(0)
}

fn render(stats: &AllStats) -> String {
    let mut out = String::from("{\"pools\":{");
    for i in 0..stats.pools.len() {
        let pool = stats.pools.value_at(i).unwrap();
        if i > 0 {
            out.push(',');
        }
        out.push_str(&format!(
            "\"{}\":{{\"workers\":{},\"avg_hashrate\":{:?},\"avg_temp\":{:?}}}",
            stats.pools.key_at(i).unwrap(),
            pool.workers,
            avg(&pool.hashrate_bits),
            avg(&pool.temperature_bits)
        ));
    }
    out.push_str("}}");
    out
}

fn stats_with(workers: usize, hashrates: &[f64]) -> PoolStats {
    PoolStats {
        workers,
        hashrate_bits: hashrates.iter().map(|h| h.to_bits()).collect(),
        temperature_bits: hashrates.iter().map(|_| 50.0f64.to_bits()).collect(),
    }
}

fn published(action: ActorAction) -> AllStats {
    match action {
        ActorAction::Publish(stats) => stats,
        other => panic!("expected a snapshot, got {:?}", other),
    }
}

// The single actor.

#[test]
fn data_actor_takes_reports_and_answers_continue() {
    let mut actor = DataActor::new(300);
    assert!(!actor.closed());
    let action = actor.step(ActorEvent::Report(rep("w1", "p1", 1.0, 1.0, 1)));
    assert!(matches!(action, ActorAction::Continue));
    assert_eq!(retained(actor.pools(), "p1"), 1);
}

#[test]
fn data_actor_ingest_acknowledges() {
    let mut actor = DataActor::new(300);
    assert_eq!(actor.ingest(rep("w1", "p1", 1.0, 1.0, 1)), Ok(Ack));
    assert_eq!(actor.ingest(rep("w2", "p1", 1.0, 1.0, 1)), Ok(Ack));
    assert_eq!(retained(actor.pools(), "p1"), 2);
}

#[test]
fn data_actor_rejects_reports_after_shutdown() {
    let mut actor = DataActor::new(300);
    assert_eq!(actor.ingest(rep("w1", "p1", 1.0, 1.0, 1)), Ok(Ack));
    actor.shutdown();
    assert!(actor.closed());
    assert_eq!(actor.ingest(rep("w2", "p1", 1.0, 1.0, 1)), Err(Rejected));
    assert_eq!(retained(actor.pools(), "p1"), 1);
}

#[test]
fn data_actor_stops_when_the_source_is_closed() {
    let mut actor = DataActor::new(300);
    actor.step(ActorEvent::Report(rep("w1", "p1", 1.0, 1.0, 1)));
    assert!(matches!(actor.step(ActorEvent::Closed), ActorAction::Stop));
    assert!(actor.closed());
    assert!(matches!(actor.step(ActorEvent::Tick(10)), ActorAction::Stop));
    assert!(matches!(
        actor.step(ActorEvent::Report(rep("w2", "p1", 1.0, 1.0, 1))),
        ActorAction::Stop
    ));
    assert_eq!(retained(actor.pools(), "p1"), 1);
}

#[test]
fn data_actor_tick_on_nothing_publishes_no_pool() {
    let mut actor = DataActor::new(300);
    let stats = published(actor.step(ActorEvent::Tick(1000)));
    assert_eq!(stats.pools.len(), 0);
    assert_eq!(render(&stats), "{\"pools\":{}}");
}

#[test]
fn two_reports_of_one_pool_are_averaged_after_the_next_pass() {
    let t = 1_700_000_000u64;
    let mut actor = DataActor::new(300);
    actor.step(ActorEvent::Report(rep("w1", "p1", 100.0, 60.0, t)));
    actor.step(ActorEvent::Report(rep("w2", "p1", 200.0, 80.0, t)));
    let stats = published(actor.step(ActorEvent::Tick(t + 1)));
    assert_eq!(names(&stats), vec!["p1"]);
    let p1 = stats.pools.get("p1").unwrap();
    assert_eq!(p1.workers, 2);
    assert_eq!(avg(&p1.hashrate_bits), 150.0);
    assert_eq!(avg(&p1.temperature_bits), 70.0);
    assert_eq!(
        render(&stats),
        "{\"pools\":{\"p1\":{\"workers\":2,\"avg_hashrate\":150.0,\"avg_temp\":70.0}}}"
    );
}

#[test]
fn data_actor_tick_retains_only_the_window() {
    let mut actor = DataActor::new(300);
    actor.step(ActorEvent::Report(rep("w1", "p1", 100.0, 60.0, 100)));
    actor.step(ActorEvent::Report(rep("w2", "p1", 200.0, 80.0, 800)));
    actor.step(ActorEvent::Report(rep("w3", "p1", 300.0, 90.0, 200)));
    actor.step(ActorEvent::Report(rep("w4", "p1", 400.0, 70.0, 1000)));
    let stats = published(actor.step(ActorEvent::Tick(1000)));
    let window = actor.pools().window("p1").unwrap();
    for i in 0..window.len() {
        assert!(window.get(i).unwrap().timestamp >= 700);
    }
    assert_eq!(window.len(), 2);
    let p1 = stats.pools.get("p1").unwrap();
    assert_eq!(p1.workers, 2);
    assert_eq!(p1.hashrate_bits, vec![200.0f64.to_bits(), 400.0f64.to_bits()]);
}

#[test]
fn data_actor_keeps_an_emptied_pool_with_zero_stats() {
    let mut actor = DataActor::new(300);
    actor.step(ActorEvent::Report(rep("w1", "p1", 100.0, 60.0, 100)));
    let first = published(actor.step(ActorEvent::Tick(1000)));
    assert_eq!(first.pools.get("p1"), Some(&PoolStats::default()));
    let second = published(actor.step(ActorEvent::Tick(1001)));
    assert_eq!(names(&second), vec!["p1"]);
    assert_eq!(second.pools.get("p1"), Some(&PoolStats::default()));
    assert_eq!(
        render(&second),
        "{\"pools\":{\"p1\":{\"workers\":0,\"avg_hashrate\":0.0,\"avg_temp\":0.0}}}"
    );
}

#[test]
fn data_actor_repeated_tick_gives_the_same_snapshot() {
    let mut actor = DataActor::new(300);
    actor.step(ActorEvent::Report(rep("w1", "a", 100.0, 60.0, 100)));
    actor.step(ActorEvent::Report(rep("w2", "a", 200.0, 80.0, 900)));
    actor.step(ActorEvent::Report(rep("w3", "b", 300.0, 90.0, 950)));
    let first = actor.tick(1000);
    let second = actor.tick(1000);
    assert_eq!(render(&first), render(&second));
    assert_eq!(retained(actor.pools(), "a"), 1);
    assert_eq!(retained(actor.pools(), "b"), 1);
}

#[test]
fn no_report_is_lost_between_arrival_and_expiry() {
    let producers = 4u64;
    let each = 25u64;
    let mut actor = DataActor::new(300);
    for round in 0..each {
        for p in 0..producers {
            let timestamp = if (round + p) % 2 == 0 { 1000 } else { 10 };
            let outcome = actor.ingest(rep(&format!("w{}", p), "p1", 1.0, 1.0, timestamp));
            assert_eq!(outcome, Ok(Ack));
        }
    }
    let arrived = retained(actor.pools(), "p1") as u64;
    assert_eq!(arrived, producers * each);
    let stats = actor.tick(1000);
    let kept = retained(actor.pools(), "p1") as u64;
    let expired = 50u64;
    assert_eq!(kept + expired, producers * each);
    assert_eq!(stats.pools.get("p1").unwrap().hashrate_bits.len() as u64, kept);
    assert_eq!(stats.pools.get("p1").unwrap().workers, 4);
}

// The actor-per-pool engine.

#[test]
fn pool_actor_appends_without_reply() {
    let mut actor = PoolActor::new(300);
    let reply = actor.handle(PoolActorCommand::AddReport(rep("w1", "p1", 1.0, 1.0, 1)));
    assert!(reply.is_none());
    assert_eq!(actor.window().len(), 1);
}

#[test]
fn pool_actor_replies_with_the_aggregate_of_its_window() {
    let mut actor = PoolActor::new(300);
    actor.handle(PoolActorCommand::AddReport(rep("w1", "p1", 100.0, 60.0, 100)));
    actor.handle(PoolActorCommand::AddReport(rep("w2", "p1", 200.0, 80.0, 900)));
    actor.handle(PoolActorCommand::AddReport(rep("w2", "p1", 400.0, 90.0, 950)));
    let reply = actor.handle(PoolActorCommand::CalculateStats(1000)).unwrap();
    assert_eq!(reply.workers, 1);
    assert_eq!(avg(&reply.hashrate_bits), 300.0);
    assert_eq!(avg(&reply.temperature_bits), 85.0);
    assert_eq!(actor.window().len(), 2);
}

#[test]
fn pool_actor_with_an_empty_window_replies_zero() {
    let mut actor = PoolActor::new(300);
    assert_eq!(actor.handle(PoolActorCommand::CalculateStats(1000)), Some(PoolStats::default()));
    actor.handle(PoolActorCommand::AddReport(rep("w1", "p1", 100.0, 60.0, 1)));
    assert_eq!(actor.handle(PoolActorCommand::CalculateStats(1000)), Some(PoolStats::default()));
    assert_eq!(actor.handle(PoolActorCommand::CalculateStats(1000)), Some(PoolStats::default()));
}

#[test]
fn assemble_of_nothing_is_the_empty_snapshot() {
    let stats = assemble(&Vec::new(), Vec::new());
    assert_eq!(stats.pools.len(), 0);
}

#[test]
fn assemble_leaves_out_the_replies_that_never_came() {
    let asked = vec!["b".to_string(), "a".to_string(), "c".to_string()];
    let replies = vec![Some(stats_with(1, &[10.0])), None, Some(stats_with(2, &[20.0, 30.0]))];
    let stats = assemble(&asked, replies);
    assert_eq!(names(&stats), vec!["b", "c"]);
    assert_eq!(stats.pools.get("b"), Some(&stats_with(1, &[10.0])));
    assert_eq!(stats.pools.get("c"), Some(&stats_with(2, &[20.0, 30.0])));
    assert!(stats.pools.get("a").is_none());
}

#[test]
fn assemble_pairs_names_and_replies_as_far_as_both_reach() {
    let asked = vec!["a".to_string(), "b".to_string()];
    let replies = vec![Some(stats_with(1, &[1.0])), Some(stats_with(2, &[2.0])), Some(stats_with(3, &[3.0]))];
    assert_eq!(names(&assemble(&asked, replies)), vec!["a", "b"]);
    let asked = vec!["a".to_string(), "b".to_string(), "c".to_string()];
    let replies = vec![Some(stats_with(1, &[1.0]))];
    assert_eq!(names(&assemble(&asked, replies)), vec!["a"]);
}

#[test]
fn assemble_gives_a_repeated_name_its_later_reply() {
    let asked = vec!["a".to_string(), "a".to_string()];
    let replies = vec![Some(stats_with(1, &[1.0])), Some(stats_with(2, &[2.0]))];
    let stats = assemble(&asked, replies);
    assert_eq!(names(&stats), vec!["a"]);
    assert_eq!(stats.pools.get("a"), Some(&stats_with(2, &[2.0])));
}

#[test]
fn reap_removes_the_dead_actors_only() {
    let mut registry: KeyMap<u32> = KeyMap::new();
    registry.insert("a".to_string(), 1);
    registry.insert("b".to_string(), 2);
    registry.insert("c".to_string(), 3);
    reap(&mut registry, &vec!["b".to_string(), "nobody".to_string(), "b".to_string()]);
    assert_eq!(registry.len(), 2);
    assert_eq!(registry.get("a"), Some(&1));
    assert!(registry.get("b").is_none());
    assert_eq!(registry.get("c"), Some(&3));
    reap(&mut registry, &Vec::new());
    assert_eq!(registry.len(), 2);
}

#[test]
fn stats_pass_tells_the_asked_from_the_dead() {
    let mut pass = StatsPass::new();
    assert!(pass.asked().is_empty());
    assert!(pass.dead().is_empty());
    pass.record("a".to_string(), true);
    pass.record("b".to_string(), false);
    pass.record("c".to_string(), true);
    assert_eq!(pass.asked(), &vec!["a".to_string(), "c".to_string()]);
    assert_eq!(pass.dead(), &vec!["b".to_string()]);
}

#[test]
fn a_pass_over_live_and_dead_actors() {
    let mut registry: KeyMap<u32> = KeyMap::new();
    let mut actors = Vec::new();
    for (i, pool) in ["a", "b", "c"].iter().enumerate() {
        registry.insert(pool.to_string(), i as u32);
        let mut actor = PoolActor::new(300);
        actor.handle(PoolActorCommand::AddReport(rep("w1", pool, 100.0 * (i + 1) as f64, 60.0, 990)));
        actors.push(actor);
    }
    let mut pass = StatsPass::new();
    let mut replies = Vec::new();
    for i in 0..registry.len() {
        let pool = registry.key_at(i).unwrap().clone();
        let alive = pool != "b";
        if alive {
            let handle = *registry.value_at(i).unwrap() as usize;
            replies.push(actors[handle].handle(PoolActorCommand::CalculateStats(1000)));
        }
        pass.record(pool, alive);
    }
    let stats = pass.finish(&mut registry, replies);
    assert_eq!(names(&stats), vec!["a", "c"]);
    assert_eq!(avg(&stats.pools.get("a").unwrap().hashrate_bits), 100.0);
    assert_eq!(avg(&stats.pools.get("c").unwrap().hashrate_bits), 300.0);
    assert_eq!(registry.len(), 2);
    assert!(!registry.contains_key("b"));
}

// The queue engine.

#[test]
fn submit_always_acknowledges() {
    let queue = SegQueue::new();
    assert_eq!(submit(&queue, rep("w1", "p1", 1.0, 1.0, 1)), Ok(Ack));
    assert_eq!(submit(&queue, rep("w2", "p1", 1.0, 1.0, 1)), Ok(Ack));
    assert_eq!(queue.len(), 2);
}

#[test]
fn drain_empties_the_queue_in_order() {
    let queue = SegQueue::new();
    for i in 0..100u64 {
        let _ = submit(&queue, rep(&format!("w{}", i), "p1", 1.0, 1.0, i));
    }
    let drained = drain(&queue);
    assert!(queue.is_empty());
    assert_eq!(drained.len(), 100);
    for (i, r) in drained.iter().enumerate() {
        assert_eq!(r.worker_id, format!("w{}", i));
        assert_eq!(r.timestamp, i as u64);
    }
    assert!(drain(&queue).is_empty());
}

#[test]
fn queue_pass_takes_the_batch_in_and_drops_emptied_pools() {
    let mut aggregator = StatsAggregator::new(300);
    let stats = aggregator.pass(
        vec![
            rep("w1", "p1", 100.0, 60.0, 990),
            rep("w2", "gone", 1.0, 1.0, 10),
            rep("w2", "p1", 200.0, 80.0, 995),
            rep("w3", "p2", 50.0, 40.0, 1000),
        ],
        1000,
    );
    assert_eq!(names(&stats), vec!["p1", "p2"]);
    assert_eq!(aggregator.pools().len(), 2);
    assert!(aggregator.pools().window("gone").is_none());
    let p1 = stats.pools.get("p1").unwrap();
    assert_eq!(p1.workers, 2);
    assert_eq!(avg(&p1.hashrate_bits), 150.0);
    assert_eq!(avg(&p1.temperature_bits), 70.0);
}

#[test]
fn queue_pass_appends_to_what_earlier_passes_retained() {
    let mut aggregator = StatsAggregator::new(300);
    aggregator.pass(vec![rep("w1", "p1", 100.0, 60.0, 900)], 1000);
    let stats = aggregator.pass(vec![rep("w2", "p1", 300.0, 80.0, 1001)], 1001);
    let p1 = stats.pools.get("p1").unwrap();
    assert_eq!(p1.workers, 2);
    assert_eq!(p1.hashrate_bits, vec![100.0f64.to_bits(), 300.0f64.to_bits()]);
    let stats = aggregator.pass(Vec::new(), 1250);
    let p1 = stats.pools.get("p1").unwrap();
    assert_eq!(p1.hashrate_bits, vec![300.0f64.to_bits()]);
    let stats = aggregator.pass(Vec::new(), 2000);
    assert_eq!(stats.pools.len(), 0);
    assert_eq!(aggregator.pools().len(), 0);
}

#[test]
fn queue_pass_repeated_gives_the_same_snapshot() {
    let mut aggregator = StatsAggregator::new(300);
    let first = aggregator.pass(
        vec![rep("w1", "a", 100.0, 60.0, 100), rep("w2", "b", 200.0, 80.0, 900)],
        1000,
    );
    let second = aggregator.pass(Vec::new(), 1000);
    assert_eq!(render(&first), render(&second));
    assert_eq!(names(&second), vec!["b"]);
}

#[test]
fn queue_absorb_then_compute_is_a_pass() {
    let batch = vec![
        rep("w1", "a", 100.0, 60.0, 900),
        rep("w2", "b", 200.0, 80.0, 10),
        rep("w3", "a", 300.0, 70.0, 950),
    ];
    let mut whole = StatsAggregator::new(300);
    let expected = whole.pass(batch.clone(), 1000);
    let mut parts = StatsAggregator::new(300);
    let mut left = Pools::new();
    left.ingest(batch[0].clone());
    let mut right = Pools::new();
    right.ingest(batch[1].clone());
    right.ingest(batch[2].clone());
    left.merge(right);
    parts.absorb(left);
    let got = parts.compute(1000);
    assert_eq!(render(&got), render(&expected));
}

#[test]
fn queue_tick_drains_and_aggregates() {
    let queue = SegQueue::new();
    let t = 1_700_000_000u64;
    let _ = submit(&queue, rep("w1", "p1", 100.0, 60.0, t));
    let _ = submit(&queue, rep("w2", "p1", 200.0, 80.0, t));
    let mut aggregator = StatsAggregator::new(300);
    let stats = aggregator.tick(&queue, t + 1);
    assert!(queue.is_empty());
    assert_eq!(
        render(&stats),
        "{\"pools\":{\"p1\":{\"workers\":2,\"avg_hashrate\":150.0,\"avg_temp\":70.0}}}"
    );
    let again = aggregator.tick(&queue, t + 1);
    assert_eq!(render(&again), render(&stats));
}

// Publishing and the endpoints.

#[test]
fn publisher_shows_the_initial_rendering() {
    let publisher = SnapshotPublisher::new("{\"pools\":{}}".to_string());
    assert_eq!(publisher.snapshot(), "{\"pools\":{}}");
}

#[test]
fn publisher_replaces_the_rendering() {
    let mut publisher = SnapshotPublisher::new("old".to_string());
    publisher.publish(Some("new".to_string()));
    assert_eq!(publisher.snapshot(), "new");
    publisher.publish(Some("newer".to_string()));
    assert_eq!(publisher.snapshot(), "newer");
}

#[test]
fn publisher_keeps_the_rendering_when_there_is_none() {
    let mut publisher = SnapshotPublisher::new("old".to_string());
    publisher.publish(None);
    assert_eq!(publisher.snapshot(), "old");
}

#[test]
fn post_report_answers_200_or_500() {
    assert_eq!(post_report(&Ok(Ack)), 200);
    assert_eq!(post_report(&Err(Rejected)), 500);
    assert_eq!(STATUS_OK, 200);
    assert_eq!(STATUS_INTERNAL_SERVER_ERROR, 500);
}

#[test]
fn get_stats_answers_with_the_published_rendering() {
    let mut publisher = SnapshotPublisher::new("{\"pools\":{}}".to_string());
    let response = get_stats(&publisher);
    assert_eq!(response.status, 200);
    assert_eq!(response.content_type, "application/json");
    assert_eq!(response.cache_control, "no-cache, no-store, must-revalidate");
    assert_eq!(response.body, "{\"pools\":{}}");
    publisher.publish(Some("{\"pools\":{\"p1\":{}}}".to_string()));
    assert_eq!(get_stats(&publisher).body, "{\"pools\":{\"p1\":{}}}");
    assert_eq!(STATS_CONTENT_TYPE, "application/json");
    assert_eq!(STATS_CACHE_CONTROL, "no-cache, no-store, must-revalidate");
}
