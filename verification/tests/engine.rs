use cryptarithm::builder::add_constraints;
use cryptarithm::letters::extract_unique_letters;
use cryptarithm::variables::generate_variables;
use z3::{Config, Context, SatResult, Solver};

fn listing(solver: &Solver) -> String {
    format!("{}", solver)
}

fn count(text: &str, part: &str) -> usize {
    text.matches(part).count()
}

#[test]
fn one_unknown_is_made_for_each_letter() {
    let config = Config::new();
    let ctx = Context::new(&config);
    let pool = generate_variables(&ctx, vec!['S', 'E', 'N', 'D']);
    assert_eq!(pool.letter_list(), &vec!['S', 'E', 'N', 'D']);
    assert_eq!(pool.terms().len(), 4);
    assert_eq!(format!("{}", pool.terms()[0]), "S");
    assert_eq!(format!("{}", pool.terms()[3]), "D");
    assert_eq!(format!("{}", pool.variable('N').unwrap()), "N");
    assert!(pool.variable('X').is_none());
}

#[test]
fn a_letter_given_twice_gets_one_unknown() {
    let config = Config::new();
    let ctx = Context::new(&config);
    let pool = generate_variables(&ctx, vec!['A', 'B', 'A', 'C', 'B']);
    assert_eq!(pool.letter_list(), &vec!['A', 'B', 'C']);
    assert_eq!(pool.terms().len(), 3);
}

#[test]
fn no_letters_give_no_unknowns() {
    let config = Config::new();
    let ctx = Context::new(&config);
    let pool = generate_variables(&ctx, vec![]);
    assert_eq!(pool.letter_list(), &Vec::<char>::new());
    assert_eq!(pool.terms().len(), 0);
}

#[test]
fn the_constraints_of_send_more_money_are_asserted() {
    let config = Config::new();
    let ctx = Context::new(&config);
    let mut solver = Solver::new(&ctx);
    let letters = extract_unique_letters(vec!["SEND", "MORE", "MONEY"]);
    let pool = generate_variables(&ctx, letters);
    add_constraints(&mut solver, &ctx, &pool, vec!["SEND", "MORE"], vec!["MONEY"]);

    let text = listing(&solver);
    // Two bounds for each of eight letters, one for each of three words, the
    // distinctness and the equation.
    assert_eq!(count(&text, "(assert"), 2 * 8 + 3 + 1 + 1);
    assert_eq!(count(&text, "(distinct"), 1);
    assert_eq!(count(&text, "(declare-fun"), 8);

    assert_eq!(solver.check(), SatResult::Sat);
    let model = solver.get_model().unwrap();
    let expected = [('S', 9), ('E', 5), ('N', 6), ('D', 7), ('M', 1), ('O', 0), ('R', 8), ('Y', 2)];
    for (letter, digit) in expected {
        let unknown = pool.variable(letter).unwrap();
        assert_eq!(model.eval(unknown).unwrap().as_i64(), Some(digit));
    }
}

#[test]
fn the_constraints_of_aa_and_bb_cannot_be_met() {
    let config = Config::new();
    let ctx = Context::new(&config);
    let mut solver = Solver::new(&ctx);
    let pool = generate_variables(&ctx, vec!['A', 'B']);
    add_constraints(&mut solver, &ctx, &pool, vec!["AA"], vec!["BB"]);
    assert_eq!(count(&listing(&solver), "(assert"), 2 * 2 + 2 + 1 + 1);
    assert_eq!(solver.check(), SatResult::Unsat);
}

#[test]
fn constraints_are_added_to_those_already_there() {
    let config = Config::new();
    let ctx = Context::new(&config);
    let mut solver = Solver::new(&ctx);
    let pool = generate_variables(&ctx, vec!['A', 'B']);
    // A + A = B alone can be met.
    add_constraints(&mut solver, &ctx, &pool, vec!["A", "A"], vec!["B"]);
    assert_eq!(count(&listing(&solver), "(assert"), 2 * 2 + 3 + 1 + 1);
    assert_eq!(solver.check(), SatResult::Sat);
    // Together with A = B it cannot.
    add_constraints(&mut solver, &ctx, &pool, vec!["A"], vec!["B"]);
    assert_eq!(count(&listing(&solver), "(assert"), 2 * (2 * 2) + 3 + 2 + 2 + 2);
    assert_eq!(solver.check(), SatResult::Unsat);
}

#[test]
fn every_digit_is_bounded_and_no_leading_digit_is_zero() {
    let config = Config::new();
    let ctx = Context::new(&config);
    let mut solver = Solver::new(&ctx);
    let pool = generate_variables(&ctx, vec!['A', 'B', 'C']);
    // AB + AB = CB forces B = 0 and C = 2 A.
    add_constraints(&mut solver, &ctx, &pool, vec!["AB", "AB"], vec!["CB"]);
    assert_eq!(solver.check(), SatResult::Sat);
    let model = solver.get_model().unwrap();
    let a = model.eval(pool.variable('A').unwrap()).unwrap().as_i64().unwrap();
    let b = model.eval(pool.variable('B').unwrap()).unwrap().as_i64().unwrap();
    let c = model.eval(pool.variable('C').unwrap()).unwrap().as_i64().unwrap();
    assert_eq!(b, 0);
    assert!(1 <= a && a <= 4);
    assert_eq!(c, 2 * a);
}
