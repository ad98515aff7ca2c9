use tesla_fan_control::config::load;
use tesla_fan_control::curve::Curve;
use tesla_fan_control::group::{target_pct, CoolingGroup, GpuView};
use tesla_fan_control::idmap::IdMap;
use tesla_fan_control::units::{Celsius, Pct, Pwm};

fn curve_simple() -> Curve {
    Curve::new(vec![
        (Celsius(40), Pct(20)),
        (Celsius(55), Pct(40)),
        (Celsius(70), Pct(80)),
        (Celsius(80), Pct(100)),
    ])
    .unwrap()
}

#[test]
fn single_gpu_target_is_clamped_curve_value() {
    let curve = curve_simple();
    let group = CoolingGroup {
        id: "main".into(),
        gpus: vec!["0".into()],
        fans: vec!["f0".into()],
    };
    let mut temps = IdMap::new();
    temps.insert("0".into(), Celsius(70));
    let mut gpus = IdMap::new();
    gpus.insert(
        "0".to_string(),
        GpuView {
            curve: &curve,
            min_fan_pct: Pct(20),
            max_fan_pct: Pct(100),
        },
    );

    // curve(70) = 80; clamp(80, 20, 100) = 80
    assert_eq!(target_pct(&group, &temps, &gpus), Pct(80));
}

#[test]
fn two_gpus_hot_one_wins() {
    // GPU 0 at 80°C, GPU 1 at 35°C → curve(80)=100 wins
    let curve = curve_simple();
    let group = CoolingGroup {
        id: "shared".into(),
        gpus: vec!["0".into(), "1".into()],
        fans: vec!["f0".into()],
    };
    let mut temps = IdMap::new();
    temps.insert("0".into(), Celsius(80));
    temps.insert("1".into(), Celsius(35));
    let mut gpus = IdMap::new();
    gpus.insert(
        "0".to_string(),
        GpuView {
            curve: &curve,
            min_fan_pct: Pct(20),
            max_fan_pct: Pct(100),
        },
    );
    gpus.insert(
        "1".to_string(),
        GpuView {
            curve: &curve,
            min_fan_pct: Pct(20),
            max_fan_pct: Pct(100),
        },
    );
    assert_eq!(target_pct(&group, &temps, &gpus), Pct(100));
}

#[test]
fn quiet_gpus_min_floor_raises_group_target() {
    // Quiet idle GPU with min_fan_pct=30 alongside hot GPU below 30.
    // The hot GPU's bounded contribution is curve(35)=20 capped to its own
    // band [20,100] => 20, but the quiet GPU has min=30 so curve(30)=20
    // clamps UP to 30 → group target is 30.
    let curve = Curve::new(vec![(Celsius(30), Pct(20)), (Celsius(80), Pct(100))]).unwrap();
    let group = CoolingGroup {
        id: "shared".into(),
        gpus: vec!["quiet".into(), "low".into()],
        fans: vec!["f0".into()],
    };
    let mut temps = IdMap::new();
    temps.insert("quiet".into(), Celsius(30));
    temps.insert("low".into(), Celsius(30));
    let mut gpus = IdMap::new();
    gpus.insert(
        "quiet".to_string(),
        GpuView {
            curve: &curve,
            min_fan_pct: Pct(30),
            max_fan_pct: Pct(100),
        },
    );
    gpus.insert(
        "low".to_string(),
        GpuView {
            curve: &curve,
            min_fan_pct: Pct(20),
            max_fan_pct: Pct(100),
        },
    );
    assert_eq!(target_pct(&group, &temps, &gpus), Pct(30));
}

#[test]
fn max_fan_pct_caps_own_contribution_only() {
    // GPU A capped at 50% even though hot. GPU B uncapped, also hot.
    // Group target = max(clamp(curve(80), 20, 50), clamp(curve(80), 20, 100))
    //              = max(50, 100) = 100. The cap on A does not limit B.
    let curve = curve_simple();
    let group = CoolingGroup {
        id: "shared".into(),
        gpus: vec!["a".into(), "b".into()],
        fans: vec!["f0".into()],
    };
    let mut temps = IdMap::new();
    temps.insert("a".into(), Celsius(80));
    temps.insert("b".into(), Celsius(80));
    let mut gpus = IdMap::new();
    gpus.insert(
        "a".to_string(),
        GpuView {
            curve: &curve,
            min_fan_pct: Pct(20),
            max_fan_pct: Pct(50),
        },
    );
    gpus.insert(
        "b".to_string(),
        GpuView {
            curve: &curve,
            min_fan_pct: Pct(20),
            max_fan_pct: Pct(100),
        },
    );
    assert_eq!(target_pct(&group, &temps, &gpus), Pct(100));
}

fn group_of(ids: &[&str]) -> CoolingGroup {
    CoolingGroup {
        id: "g".to_string(),
        gpus: ids.iter().map(|s| s.to_string()).collect(),
        fans: vec!["f0".to_string()],
    }
}

#[test]
fn unknown_gpus_contribute_nothing() {
    let curve = curve_simple();
    let mut temps = IdMap::new();
    temps.insert("a".to_string(), Celsius(55));
    temps.insert("no view".to_string(), Celsius(100));
    let mut gpus = IdMap::new();
    gpus.insert("a".to_string(), GpuView { curve: &curve, min_fan_pct: Pct(0), max_fan_pct: Pct(100) });
    gpus.insert(
        "no temp".to_string(),
        GpuView { curve: &curve, min_fan_pct: Pct(90), max_fan_pct: Pct(100) },
    );
    assert_eq!(target_pct(&group_of(&["no view", "a", "no temp", "neither"]), &temps, &gpus), Pct(40));
    assert_eq!(target_pct(&group_of(&["no view", "no temp"]), &temps, &gpus), Pct(0));
    assert_eq!(target_pct(&group_of(&[]), &temps, &gpus), Pct(0));
}

#[test]
fn order_and_repetition_do_not_matter() {
    let curve = curve_simple();
    let mut temps = IdMap::new();
    let mut gpus = IdMap::new();
    for (id, t) in [("a", 45), ("b", 62), ("c", 30)] {
        temps.insert(id.to_string(), Celsius(t));
        gpus.insert(
            id.to_string(),
            GpuView { curve: &curve, min_fan_pct: Pct(20), max_fan_pct: Pct(100) },
        );
    }
    let expected = target_pct(&group_of(&["a", "b", "c"]), &temps, &gpus);
    assert_eq!(expected, Pct(58));
    assert_eq!(target_pct(&group_of(&["c", "b", "b", "a", "c"]), &temps, &gpus), expected);
}

#[test]
fn heat_never_lowers_the_target() {
    let curve = curve_simple();
    let group = group_of(&["a"]);
    let mut gpus = IdMap::new();
    gpus.insert("a".to_string(), GpuView { curve: &curve, min_fan_pct: Pct(25), max_fan_pct: Pct(90) });
    let mut last = Pct(0);
    for t in 0i16..=110 {
        let mut temps = IdMap::new();
        temps.insert("a".to_string(), Celsius(t));
        let p = target_pct(&group, &temps, &gpus);
        assert!(p >= last);
        assert!(p >= Pct(25) && p <= Pct(90));
        last = p;
    }
}

#[test]
fn loaded_config_drives_a_group() {
    let text = "\
[global]
config_version = 1
poll_interval_ms = 1000
log_level = info
[watchdog]
enabled = true
device = /dev/watchdog
timeout_s = 30
gpu_fail_threshold = 3
[gpu:a]
nvml_index = 0
curve = 40:20, 55:40, 70:80, 80:100
min_fan_pct = 30
max_fan_pct = 90
[gpu:b]
nvml_index = 1
curve = 40:20, 55:40, 70:80, 80:100
min_fan_pct = 20
max_fan_pct = 100
[fan:f]
chip = nct6798
pwm_channel = 1
min_rpm = 200
max_rpm = 3000
fan_fail_threshold = 3
spin_up_grace_s = 10
[group:g]
gpus = a, b
fans = f
";
    let (cfg, _) = load(Ok(text.to_string())).unwrap();
    let group = CoolingGroup {
        id: cfg.groups[0].id.clone(),
        gpus: cfg.groups[0].gpus.clone(),
        fans: cfg.groups[0].fans.clone(),
    };
    let mut gpus = IdMap::new();
    for g in &cfg.gpus {
        gpus.insert(
            g.id.clone(),
            GpuView { curve: &g.curve, min_fan_pct: g.min_fan_pct, max_fan_pct: g.max_fan_pct },
        );
    }
    for (a, b, expected, duty) in
        [(20, 20, 30, 76), (60, 20, 53, 135), (95, 20, 90, 229), (20, 95, 100, 255)]
    {
        let mut temps = IdMap::new();
        temps.insert("a".to_string(), Celsius(a));
        temps.insert("b".to_string(), Celsius(b));
        let target = target_pct(&group, &temps, &gpus);
        assert_eq!(target, Pct(expected));
        assert_eq!(Pwm::from(target), Pwm(duty));
    }
}
