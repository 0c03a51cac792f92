use rho::clock::Gate;

// A phase that runs from 0 to 1 in steps of rate / reference_rate.
fn tick_phase(phase: &mut f32, phase_inc: f32) {
    *phase += phase_inc;
    if *phase >= 1.0 {
        *phase -= 1.0;
    }
}

#[test]
fn test_clock() {
    let duty_cycle: f32 = 0.5;
    let phase_inc: f32 = 2.0 / 8.0;
    let mut phase: f32 = 0.0;
    let mut gate = Gate::new();
    let mut tick = || {
        let new_gate_on = phase < duty_cycle;
        tick_phase(&mut phase, phase_inc);
        gate.tick(new_gate_on)
    };
    assert_eq!(tick(), Some(true));
    assert_eq!(tick(), None);
    assert_eq!(tick(), Some(false));
    assert_eq!(tick(), None);
    assert_eq!(tick(), Some(true));
}

#[test]
fn the_gate_reports_changes_only() {
    let mut gate = Gate::new();
    assert!(!gate.is_on());
    assert_eq!(gate.tick(false), None);
    assert_eq!(gate.tick(true), Some(true));
    assert!(gate.is_on());
    assert_eq!(gate.tick(true), None);
    assert_eq!(gate.tick(true), None);
    assert_eq!(gate.tick(false), Some(false));
    assert!(!gate.is_on());
    assert_eq!(gate.tick(false), None);
}
