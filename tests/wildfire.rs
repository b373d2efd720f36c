use free_range::backend::{AgentActions, Backend, CpuBackend, CudaBackend};
use free_range::error::{CoreError, WildfireError};
use free_range::hello;
use free_range::spaces::{DiscreteSample, OneOfSample, Sample, Space};
use free_range::wildfire::{Agent, Fire, SpawnGroup, WildfireConfig, WildfireEnv};

fn config() -> WildfireConfig {
    WildfireConfig {
        grid_size: (2, 3),
        num_envs: 3,
        max_agents: 4,
        max_fires: 3,
        agents: vec![
            SpawnGroup { count: 2, template: Agent { id: 0, x: 0, y: 1, suppressant: 5, equipment: 2 } },
            SpawnGroup { count: 1, template: Agent { id: 0, x: 2, y: 0, suppressant: 1, equipment: 9 } },
        ],
        fires: vec![SpawnGroup { count: 2, template: Fire { id: 0, x: 1, y: 1, power: 4, intensity: 6 } }],
        initial_fuel: vec![1, 0, 2, 0, 3, 1],
        max_agents_per_cell: vec![1, 1, 1, 2, 1, 1],
        max_fires_per_cell: vec![0, 0, 0, 0, 2, 0],
    }
}

fn agents_of(env: &WildfireEnv, e: usize) -> Vec<Agent> {
    let view = env.agents().index_view(e).unwrap();
    (0..view.len()).map(|i| view.get(i)).collect()
}

fn fires_of(env: &WildfireEnv, e: usize) -> Vec<Fire> {
    let view = env.fires().index_view(e).unwrap();
    (0..view.len()).map(|i| view.get(i)).collect()
}

#[test]
fn hello_greets() {
    assert_eq!(hello(), "Hello from core!");
}

#[test]
fn new_environment_is_empty() {
    let env = WildfireEnv::new(config()).unwrap();
    for e in 0..3 {
        assert!(agents_of(&env, e).is_empty());
        assert!(fires_of(&env, e).is_empty());
    }
}

#[test]
fn reset_seeded_twice_gives_the_same_state() {
    let mut env = WildfireEnv::new(config()).unwrap();
    env.reset();
    env.reset_seeded(42);
    let agents: Vec<Vec<Agent>> = (0..3).map(|e| agents_of(&env, e)).collect();
    let fires: Vec<Vec<Fire>> = (0..3).map(|e| fires_of(&env, e)).collect();
    let fuel: Vec<Vec<u32>> = (0..3).map(|e| env.fuel(e)).collect();

    env.agents();
    env.reset_seeded(42);
    for e in 0..3 {
        assert_eq!(agents_of(&env, e), agents[e]);
        assert_eq!(fires_of(&env, e), fires[e]);
        assert_eq!(env.fuel(e), fuel[e]);
    }
    assert_eq!(env.last_seed(), Some(42));
}

#[test]
fn reset_repopulates_every_environment_identically() {
    let mut env = WildfireEnv::new(config()).unwrap();
    env.reset_seeded(7);
    let first = agents_of(&env, 0);
    assert_eq!(first.len(), 3);
    let base = first[0].id;
    assert_eq!(first[1].id, base + 1);
    assert_eq!(first[2].id, base + 2);
    assert_eq!((first[0].x, first[0].y, first[0].suppressant), (0, 1, 5));
    assert_eq!((first[2].x, first[2].y, first[2].equipment), (2, 0, 9));
    let fires = fires_of(&env, 0);
    assert_eq!(fires.len(), 2);
    assert_eq!(fires[1].id, base + 1);
    for e in 0..3 {
        assert_eq!(agents_of(&env, e), first);
        assert_eq!(fires_of(&env, e), fires);
        assert_eq!(env.fuel(e), vec![1, 0, 2, 0, 3, 1]);
    }
    env.reset();
    assert_eq!(agents_of(&env, 2).len(), 3);
    assert_eq!(env.last_seed(), None);
}

#[test]
fn invalid_configurations_are_rejected() {
    let mut c = config();
    c.initial_fuel.pop();
    assert!(matches!(WildfireEnv::new(c), Err(WildfireError::InvalidWildfireOperation(_))));

    let mut c = config();
    c.max_agents = 2;
    assert!(matches!(WildfireEnv::new(c), Err(WildfireError::InvalidWildfireOperation(_))));

    let mut c = config();
    c.fires[0].template.x = 3;
    assert!(matches!(WildfireEnv::new(c), Err(WildfireError::InvalidWildfireOperation(_))));

    let mut c = config();
    c.initial_fuel = vec![0, 0, 0, 0, 1, 0];
    assert!(matches!(WildfireEnv::new(c), Err(WildfireError::InvalidWildfireOperation(_))));

    let mut c = config();
    c.max_agents_per_cell[3] = 1;
    assert!(matches!(WildfireEnv::new(c), Err(WildfireError::InvalidWildfireOperation(_))));

    let mut c = config();
    c.max_fires_per_cell.pop();
    assert!(matches!(WildfireEnv::new(c), Err(WildfireError::InvalidWildfireOperation(_))));

    let mut c = config();
    c.max_fires = usize::MAX;
    assert!(matches!(c.validate(), Err(WildfireError::InvalidWildfireOperation(_))));

    assert!(config().validate().is_ok());
}

#[test]
fn action_space_follows_live_fires() {
    let mut env = WildfireEnv::new(config()).unwrap();
    let empty = env.action_space(0).unwrap();
    assert_eq!(empty.len(), 2);
    assert!(empty.enumerate().unwrap().len() == 1);
    env.reset_seeded(1);
    let space = env.action_space(1).unwrap();
    let Space::OneOf(o) = &space else { panic!("not a OneOf space") };
    assert_eq!(o.spaces[1].len(), 2);
    assert_eq!(space.enumerate().unwrap().len(), 3);
    assert!(env.action_space(3).is_none());
}

fn action(branch: usize, target: i32) -> Sample {
    Sample::OneOf(OneOfSample(branch, Box::new(Sample::Discrete(DiscreteSample(target)))))
}

#[test]
fn stepping_validates_actions() {
    let mut env = WildfireEnv::new(config()).unwrap();
    env.reset_seeded(3);
    let before = agents_of(&env, 0);
    let legal = vec![AgentActions {
        agent: "a".to_string(),
        samples: vec![action(0, 0), action(1, 1), action(1, 0)],
    }];
    assert!(env.step(&mut CpuBackend::new(), &legal).is_ok());
    assert!(env.step(&mut CudaBackend::new(), &legal).is_ok());
    assert!(env.step(&mut Backend::Cpu(CpuBackend::new()), &legal).is_ok());
    assert_eq!(agents_of(&env, 0), before);

    let short = vec![AgentActions { agent: "a".to_string(), samples: vec![action(0, 0)] }];
    assert!(matches!(
        env.step(&mut CpuBackend::new(), &short),
        Err(WildfireError::InvalidWildfireOperation(_))
    ));
    let off_target = vec![AgentActions {
        agent: "a".to_string(),
        samples: vec![action(0, 0), action(1, 2), action(0, 0)],
    }];
    assert!(matches!(
        env.step(&mut CpuBackend::new(), &off_target),
        Err(WildfireError::InvalidWildfireOperation(_))
    ));
    assert_eq!(agents_of(&env, 0), before);
}

#[test]
fn membership_matches_the_space() {
    let mut env = WildfireEnv::new(config()).unwrap();
    let space = env.action_space(0).unwrap();
    assert!(space.contains(&action(0, 0)));
    assert!(!space.contains(&action(1, 0)));
    env.reset_seeded(11);
    let space = env.action_space(0).unwrap();
    assert!(space.contains(&action(1, 1)));
    assert!(!space.contains(&action(0, 1)));
    assert!(!space.contains(&Sample::Discrete(DiscreteSample(0))));
    for s in space.enumerate().unwrap() {
        assert!(space.contains(&s));
    }
}

#[test]
fn core_errors_convert_into_wildfire_errors() {
    let e: WildfireError = CoreError::IndexOutOfBounds(4).into();
    assert!(matches!(e, WildfireError::Core(CoreError::IndexOutOfBounds(4))));
    let e = WildfireError::from(CoreError::InvalidOperation("lengths differ".to_string()));
    assert!(matches!(e, WildfireError::Core(CoreError::InvalidOperation(_))));
}

#[test]
fn identities_count_from_the_base() {
    let mut env = WildfireEnv::new(config()).unwrap();
    env.reset_with_id_base(100);
    for e in 0..3 {
        let ids: Vec<u64> = agents_of(&env, e).iter().map(|a| a.id).collect();
        assert_eq!(ids, vec![100, 101, 102]);
        let ids: Vec<u64> = fires_of(&env, e).iter().map(|f| f.id).collect();
        assert_eq!(ids, vec![100, 101]);
    }
}
