use takolib::experimental::lambda::{
    abs, app, church_bool, church_nat, church_not, church_plus, var, Term,
};

/// More reductions in a row than any term here needs.
const FUEL: u32 = 1000;

#[test]
fn basic_shift() {
    let before = abs(abs(app(var(1), app(var(0), var(2)))));
    let after = abs(abs(app(var(1), app(var(0), var(4)))));
    assert_eq!(before.shift(2), after);
}

#[test]
fn simple_shift() {
    let before = abs(app(
        app(var(0), var(1)),
        abs(app(app(var(0), var(1)), var(2))),
    ));
    let after = abs(app(
        app(var(0), var(3)),
        abs(app(app(var(0), var(1)), var(4))),
    ));
    assert_eq!(before.shift(2), after);
}

#[test]
fn substitute_noop() {
    assert_eq!(var(1).substitute(0, &var(2)), var(1));
}

#[test]
fn substitute_x() {
    assert_eq!(var(0).substitute(0, &var(2)), var(2));
}

#[test]
fn substitute_id() {
    assert_eq!(abs(var(1)).substitute(0, &var(2)), abs(var(3)));
}

#[test]
fn substitute_id_of_id() {
    assert_eq!(abs(var(1)).substitute(0, &abs(var(1))), abs(abs(var(2))));
}

#[test]
fn substitute_x_app_y() {
    assert_eq!(
        app(var(0), var(1)).substitute(0, &abs(var(1))),
        app(abs(var(1)), var(1))
    );
}

#[test]
fn substitute_x_app_x() {
    assert_eq!(
        app(var(0), var(0)).substitute(0, &abs(var(1))),
        app(abs(var(1)), abs(var(1)))
    );
}

#[test]
fn basic_beta_reduction() {
    assert_eq!(
        app(abs(app(app(var(1), var(0)), var(2))), abs(var(0))).beta_reduce(),
        app(app(var(0), abs(var(0))), var(1))
    )
}

#[test]
fn eval_one_step() {
    let id = abs(var(0));
    let before = app(
        app(
            app(abs(abs(abs(app(app(var(1), var(2)), var(0))))), id.clone()),
            var(5),
        ),
        var(6),
    );
    let after = app(app(var(5), id), var(6));
    assert_eq!(before.eval(FUEL), Some(after));
}

#[test]
fn eval_two_step() {
    let id = abs(var(0));
    let before = app(
        app(
            app(abs(abs(abs(app(app(var(1), var(2)), var(0))))), var(5)),
            id,
        ),
        var(6),
    );
    let after = app(var(5), var(6));
    assert_eq!(before.eval(FUEL), Some(after));
}

#[test]
fn eval_church_true() {
    assert_eq!(
        app(app(church_bool(true), church_nat(5)), church_nat(6)).eval(FUEL),
        Some(church_nat(5))
    );
}

#[test]
fn eval_church_false() {
    assert_eq!(
        app(app(church_bool(false), church_nat(5)), church_nat(6)).eval(FUEL),
        Some(church_nat(6))
    );
}

#[test]
fn eval_church_not_true() {
    assert_eq!(
        app(church_not(), church_bool(true)).eval(FUEL),
        Some(church_bool(false))
    );
}

#[test]
fn eval_church_not_false() {
    assert_eq!(
        app(church_not(), church_bool(false)).eval(FUEL),
        Some(church_bool(true))
    );
}

#[test]
fn eval_church_3_plus_4_eq_7() {
    let three = church_nat(3);
    let four = church_nat(4);
    let seven = church_nat(7);
    assert_eq!(app(app(church_plus(), three), four).eval(FUEL), Some(seven));
}

// Limits.

#[test]
fn eval_runs_out_of_fuel() {
    // (x. x x x) (x. x x x) grows with every reduction.
    let triple = abs(app(app(var(0), var(0)), var(0)));
    let growing = app(triple.clone(), triple);
    assert_eq!(growing.eval(3), None);
    assert_eq!(app(abs(var(0)), var(7)).eval(0), None);
    assert_eq!(app(abs(var(0)), var(7)).eval(1), Some(var(7)));
}

#[test]
fn eval_stops_where_a_reduction_changes_nothing() {
    // (x. x x) (x. x x) reduces to itself.
    let omega = abs(app(var(0), var(0)));
    let looping = app(omega.clone(), omega);
    assert_eq!(looping.eval(0), Some(looping.clone()));
}

#[test]
fn indices_that_do_not_fit_are_refused() {
    assert!(!var(i32::MAX).can_shift_by(1, 0));
    assert!(!var(i32::MAX).can_shift_by(1, i32::MAX));
    assert!(var(3).can_shift_by(1, 5));
    assert!(!var(i32::MIN).can_shift_by(-1, i32::MIN));
    assert!(!abs(var(0)).can_substitute_for(0, &var(i32::MAX)));
    assert_eq!(app(abs(var(0)), var(i32::MAX)).try_beta_reduce(), None);
    assert_eq!(app(abs(var(0)), var(i32::MAX)).eval(FUEL), None);
    assert_eq!(var(2).try_beta_reduce(), Some(var(2)));
}

#[test]
fn church_numerals_count_applications() {
    assert_eq!(church_nat(0), abs(abs(var(0))));
    assert_eq!(church_nat(-3), abs(abs(var(0))));
    assert_eq!(church_nat(2), abs(abs(app(var(1), app(var(1), var(0))))));
    assert_eq!(church_bool(true), abs(abs(var(1))));
    assert_eq!(Term::Var { ind: 4 }, var(4));
}
