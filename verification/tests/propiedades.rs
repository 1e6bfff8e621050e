use interprete_tanques::{
    ErrorInterprete, GRID_DIMMENSIONS, Interpreter, Position, TankDirection, TankStatus,
};

#[test]
fn test_idempotent_after_end() {
    // once every top-level statement has run, further steps return the
    // identical state unchanged, indefinitely
    let mut interprete = Interpreter::new("var x = 1;").unwrap();
    let mut status = TankStatus::default();
    status.set_pos(4, 7);
    status.set_dir(TankDirection::East);
    let after = interprete.step_inst(&status).unwrap();
    assert_eq!(interprete.get_var_value("x"), Some(1));
    let mut cur = after;
    for _ in 0..6 {
        let next = interprete.step_inst(&cur).unwrap();
        assert_eq!(next.get_pos(), cur.get_pos());
        assert_eq!(next.get_dir(), cur.get_dir());
        assert_eq!(next.shot(), cur.shot());
        assert_eq!(
            next.current_interpreter_line(),
            cur.current_interpreter_line()
        );
        assert_eq!(interprete.get_var_value("x"), Some(1));
        cur = next;
    }
}

#[test]
fn test_shadowed_declaration_is_dropped_with_its_frame() {
    // the inner `var x = 2` shadows in a frame that is popped when the
    // conditional retires, so the outer binding survives
    let mut interprete = Interpreter::new("var x = 1; si (x == 1) { var x = 2; } ").unwrap();
    let status = TankStatus::default();
    interprete.step_inst(&status).unwrap();
    assert_eq!(interprete.get_var_value("x"), Some(1));
    interprete.step_inst(&status).unwrap();
    // inside the conditional the shadow is visible
    assert_eq!(interprete.get_var_value("x"), Some(2));
    interprete.step_inst(&status).unwrap();
    assert_eq!(interprete.get_var_value("x"), Some(1));
}

#[test]
fn test_assignment_crosses_block_boundary() {
    // assignment (unlike declaration) mutates the outer binding in place
    let mut interprete = Interpreter::new("var x = 1; si (x == 1) { x = 99; }").unwrap();
    let status = TankStatus::default();
    interprete.step_inst(&status).unwrap();
    interprete.step_inst(&status).unwrap();
    interprete.step_inst(&status).unwrap();
    assert_eq!(interprete.get_var_value("x"), Some(99));
}

#[test]
fn test_loop_counts_one_step_per_iteration() {
    // x reads 0, 1, 2, 3 after successive calls: one declaration step and
    // three body steps reach x == 3
    let mut interprete = Interpreter::new("var x = 0; mientras (x < 3) { x = x + 1; }").unwrap();
    let status = TankStatus::default();
    for expected in 0..4 {
        interprete.step_inst(&status).unwrap();
        assert_eq!(interprete.get_var_value("x"), Some(expected));
    }
    // the guard-false step changes nothing more
    interprete.step_inst(&status).unwrap();
    assert_eq!(interprete.get_var_value("x"), Some(3));
}

#[test]
fn test_boundary_clamp() {
    // at row N-1 facing South, a move is a no-op
    let mut interprete = Interpreter::new("avanza;").unwrap();
    let mut status = TankStatus::default();
    status.set_pos(GRID_DIMMENSIONS - 1, 3);
    status.set_dir(TankDirection::South);
    let after = interprete.step_inst(&status).unwrap();
    assert_eq!(after.get_pos(), (GRID_DIMMENSIONS - 1, 3));

    // and at row 0 facing North
    let mut interprete = Interpreter::new("avanza;").unwrap();
    let mut status = TankStatus::default();
    status.set_pos(0, 5);
    status.set_dir(TankDirection::North);
    let after = interprete.step_inst(&status).unwrap();
    assert_eq!(after.get_pos(), (0, 5));
}

#[test]
fn test_undeclared_assignment_propagates_and_earlier_vars_survive() {
    // `x = 1;` with `x` never declared fails with the variable's name, and
    // everything declared before the failing statement stays readable
    let mut interprete = Interpreter::new("var y = 5; x = 1;").unwrap();
    let status = TankStatus::default();
    interprete.step_inst(&status).unwrap();
    let err = interprete.step_inst(&status).unwrap_err();
    match err {
        ErrorInterprete::VarNoDecl(name) => assert_eq!(name, "x"),
        _ => panic!("expected VarNoDecl"),
    }
    assert_eq!(interprete.get_var_value("y"), Some(5));
    assert_eq!(interprete.get_var_value("radar"), Some(0));
}

#[test]
fn test_sensor_facing_east() {
    // at (0,0) facing East the sensor counts every column ahead; one step
    // east shortens it by one
    let mut status = TankStatus::default();
    status.set_dir(TankDirection::East);
    assert_eq!(status.calc_radar(), (GRID_DIMMENSIONS - 1) as isize);

    let mut interprete = Interpreter::new("avanza; var x = radar;").unwrap();
    let status = interprete.step_inst(&status).unwrap();
    assert_eq!(status.calc_radar(), (GRID_DIMMENSIONS - 2) as isize);
    interprete.step_inst(&status).unwrap();
    assert_eq!(
        interprete.get_var_value("x"),
        Some((GRID_DIMMENSIONS - 2) as isize)
    );
}

#[test]
fn test_radar_seeded_at_construction() {
    let interprete = Interpreter::new("avanza;").unwrap();
    assert_eq!(interprete.get_var_value("radar"), Some(0));
}

#[test]
fn test_division_truncates_toward_zero() {
    let mut interprete =
        Interpreter::new("var a = -7 / 2; var b = 7 / -2; var c = -7 / -2;").unwrap();
    let status = TankStatus::default();
    interprete.step_inst(&status).unwrap();
    interprete.step_inst(&status).unwrap();
    interprete.step_inst(&status).unwrap();
    assert_eq!(interprete.get_var_value("a"), Some(-3));
    assert_eq!(interprete.get_var_value("b"), Some(-3));
    assert_eq!(interprete.get_var_value("c"), Some(3));
}

#[test]
fn test_division_by_zero_is_typed_error() {
    let mut interprete = Interpreter::new("var x = 1 / 0;").unwrap();
    let status = TankStatus::default();
    let err = interprete.step_inst(&status).unwrap_err();
    assert!(matches!(err, ErrorInterprete::DivCero));
}

#[test]
fn test_overflow_is_typed_error() {
    let mut interprete = Interpreter::new("var x = 9223372036854775807 + 1;").unwrap();
    let status = TankStatus::default();
    let err = interprete.step_inst(&status).unwrap_err();
    assert!(matches!(err, ErrorInterprete::Desborde));

    let mut interprete = Interpreter::new("var x = -9223372036854775808 / -1;").unwrap();
    let err = interprete.step_inst(&status).unwrap_err();
    assert!(matches!(err, ErrorInterprete::Desborde));

    let mut interprete = Interpreter::new("var x = 3037000500 * 3037000500;").unwrap();
    let err = interprete.step_inst(&status).unwrap_err();
    assert!(matches!(err, ErrorInterprete::Desborde));
}

#[test]
fn test_error_messages() {
    let err = ErrorInterprete::VarNoDecl(String::from("pepe"));
    assert_eq!(err.message(), "Variable no declarada previamente: pepe");
    assert_eq!(ErrorInterprete::DivCero.message(), "Division entre cero");
    assert_eq!(
        ErrorInterprete::Desborde.message(),
        "Desbordamiento aritmetico"
    );
}

#[test]
fn test_loop_frame_persists_after_exit() {
    // the engine never pops the scope frame pushed on loop entry, so
    // loop-local declarations stay visible after the loop ends — a
    // deliberate part of the scoping design
    let mut interprete =
        Interpreter::new("var x = 0; mientras (x < 1) { var z = 7; x = x + 1; }").unwrap();
    let status = TankStatus::default();
    interprete.step_inst(&status).unwrap();
    interprete.step_inst(&status).unwrap();
    interprete.step_inst(&status).unwrap();
    interprete.step_inst(&status).unwrap();
    assert_eq!(interprete.get_var_value("x"), Some(1));
    assert_eq!(interprete.get_var_value("z"), Some(7));

    // a loop that never runs pushes no frame and declares nothing
    let mut interprete = Interpreter::new("mientras (1 == 2) { var z = 7; }").unwrap();
    interprete.step_inst(&status).unwrap();
    assert_eq!(interprete.get_var_value("z"), None);
}

#[test]
fn test_empty_program_steps_are_noops() {
    let mut interprete = Interpreter::new("").unwrap();
    let status = TankStatus::default();
    let after = interprete.step_inst(&status).unwrap();
    assert_eq!(after.get_pos(), status.get_pos());
    let after = interprete.step_inst(&after).unwrap();
    assert_eq!(after.get_pos(), status.get_pos());
}

#[test]
fn test_redeclaration_overwrites_in_same_frame() {
    let mut interprete = Interpreter::new("var x = 1; var x = 2;").unwrap();
    let status = TankStatus::default();
    interprete.step_inst(&status).unwrap();
    interprete.step_inst(&status).unwrap();
    assert_eq!(interprete.get_var_value("x"), Some(2));
}

#[test]
fn test_keywords_are_contextual() {
    // a keyword may serve as a variable name
    let mut interprete = Interpreter::new("var var = 3; var x = var + 1; var = 9;").unwrap();
    let status = TankStatus::default();
    interprete.step_inst(&status).unwrap();
    interprete.step_inst(&status).unwrap();
    assert_eq!(interprete.get_var_value("x"), Some(4));
    interprete.step_inst(&status).unwrap();
    assert_eq!(interprete.get_var_value("var"), Some(9));
}

#[test]
fn test_line_stamping() {
    let mut interprete = Interpreter::new("var x = 1;\nvar y = 2;").unwrap();
    let status = TankStatus::default();
    let status = interprete.step_inst(&status).unwrap();
    assert_eq!(status.current_interpreter_line(), 1);
    let status = interprete.step_inst(&status).unwrap();
    assert_eq!(status.current_interpreter_line(), 2);
}

#[test]
fn test_apply_damage_saturates() {
    let mut status = TankStatus::default();
    assert_eq!(status.apply_damage(30), 70);
    assert_eq!(status.apply_damage(200), 0);
    assert_eq!(status.apply_damage(1), 0);
}

#[test]
fn test_status_accessors() {
    let mut status = TankStatus::new(2, 9);
    assert_eq!(status.pos_i(), 2);
    assert_eq!(status.pos_j(), 9);
    assert_eq!(status.get_pos(), (2, 9));
    assert_eq!(status.current_interpreter_line(), 0);
    status.set_current_interpreter_line(14);
    assert_eq!(status.current_interpreter_line(), 14);
    assert!(!status.got_shot());
    status.set_got_shot(true);
    assert!(status.got_shot());
    status.set_shot(true);
    assert!(status.shot());
}

#[test]
fn test_eager_logic_error_propagation() {
    // no short-circuiting: an unbound variable in either operand aborts
    // the whole evaluation
    let mut interprete = Interpreter::new("si (1 == 1 || q == 0) { avanza; }").unwrap();
    let status = TankStatus::default();
    let err = interprete.step_inst(&status).unwrap_err();
    assert!(matches!(err, ErrorInterprete::VarNoDecl(_)));
}
