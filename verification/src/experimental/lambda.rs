//! The untyped lambda calculus with de Bruijn indices.

use vstd::prelude::*;

verus! {

/// A number of binders by which indices are moved.
pub type Delta = i32;

/// A de Bruijn index: the number of binders between a variable and the
/// one that binds it.
pub type Ind = Delta;

/// A term: a variable, an application or an abstraction.
#[derive(PartialEq, Eq, PartialOrd, Ord, Hash, Debug)]
pub enum Term {
    Var { ind: Ind },
    App { inner: Box<Term>, arg: Box<Term> },
    Abs { inner: Box<Term> },
}

/// The variable with the index `ind`.
pub fn var(ind: Ind) -> (term: Term)
    ensures
        term == (Term::Var { ind }),
{
    Term::Var { ind }
}

/// The application of `inner` to `arg`.
pub fn app(inner: Term, arg: Term) -> (term: Term)
    ensures
        term == (Term::App { inner: Box::new(inner), arg: Box::new(arg) }),
{
    Term::App { inner: Box::new(inner), arg: Box::new(arg) }
}

/// The abstraction with the body `inner`.
pub fn abs(inner: Term) -> (term: Term)
    ensures
        term == (Term::Abs { inner: Box::new(inner) }),
{
    Term::Abs { inner: Box::new(inner) }
}

/// A copy of a term.
pub fn clone_term(term: &Term) -> (copy: Term)
    ensures
        copy == *term,
    decreases term,
{
    match term {
        Term::Var { ind } => Term::Var { ind: *ind },
        Term::App { inner, arg } => Term::App {
            inner: Box::new(clone_term(inner)),
            arg: Box::new(clone_term(arg)),
        },
        Term::Abs { inner } => Term::Abs { inner: Box::new(clone_term(inner)) },
    }
}

impl Clone for Term {
    fn clone(&self) -> (copy: Term)
        ensures
            copy == *self,
    {
        clone_term(self)
    }
}

/// Whether two terms are the same.
pub fn term_eq(a: &Term, b: &Term) -> (same: bool)
    ensures
        same == (*a == *b),
    decreases a,
{
    match (a, b) {
        (Term::Var { ind: x }, Term::Var { ind: y }) => *x == *y,
        (Term::App { inner: i1, arg: a1 }, Term::App { inner: i2, arg: a2 }) => term_eq(i1, i2)
            && term_eq(a1, a2),
        (Term::Abs { inner: i1 }, Term::Abs { inner: i2 }) => term_eq(i1, i2),
        _ => false,
    }
}

/// Whether an index can be held in 32 bits.
pub open spec fn is_index(n: int) -> bool {
    i32::MIN <= n <= i32::MAX
}

/// Whether the free variables of `term` from `cutoff` on can be moved by
/// `delta` without leaving the indices of 32 bits.
pub open spec fn can_shift(term: Term, delta: int, cutoff: int) -> bool
    decreases term,
{
    match term {
        Term::Var { ind } => ind < cutoff || is_index(ind + delta),
        Term::App { inner, arg } => can_shift(*inner, delta, cutoff) && can_shift(
            *arg,
            delta,
            cutoff,
        ),
        Term::Abs { inner } => cutoff < i32::MAX && can_shift(*inner, delta, cutoff + 1),
    }
}

/// The term with its variables from `cutoff` on moved by `delta`. Under a
/// binder the cutoff is one higher: the variable that it binds stays.
pub open spec fn shifted(term: Term, delta: int, cutoff: int) -> Term
    decreases term,
{
    match term {
        Term::Var { ind } => if ind < cutoff {
            term
        } else {
            Term::Var { ind: (ind + delta) as Ind }
        },
        Term::App { inner, arg } => Term::App {
            inner: Box::new(shifted(*inner, delta, cutoff)),
            arg: Box::new(shifted(*arg, delta, cutoff)),
        },
        Term::Abs { inner } => Term::Abs { inner: Box::new(shifted(*inner, delta, cutoff + 1)) },
    }
}

/// Whether `with` can be put for the variable `x` in `term` without
/// leaving the indices of 32 bits.
pub open spec fn can_substitute(term: Term, x: int, with: Term) -> bool
    decreases term,
{
    match term {
        Term::Var { .. } => true,
        Term::App { inner, arg } => can_substitute(*inner, x, with) && can_substitute(
            *arg,
            x,
            with,
        ),
        Term::Abs { inner } => x < i32::MAX && can_shift(with, 1, 0) && can_substitute(
            *inner,
            x + 1,
            shifted(with, 1, 0),
        ),
    }
}

/// The term with `with` in the place of the variable `x`. Under a binder
/// the variable is one higher, and so are the free variables of `with`.
pub open spec fn substituted(term: Term, x: int, with: Term) -> Term
    decreases term,
{
    match term {
        Term::Var { ind } => if ind == x {
            with
        } else {
            term
        },
        Term::App { inner, arg } => Term::App {
            inner: Box::new(substituted(*inner, x, with)),
            arg: Box::new(substituted(*arg, x, with)),
        },
        Term::Abs { inner } => Term::Abs {
            inner: Box::new(substituted(*inner, x + 1, shifted(with, 1, 0))),
        },
    }
}

/// The body and the argument of a term that applies an abstraction.
pub open spec fn redex(term: Term) -> Option<(Term, Term)> {
    match term {
        Term::App { inner, arg } => match *inner {
            Term::Abs { inner: body } => Some((*body, *arg)),
            _ => None,
        },
        _ => None,
    }
}

/// Whether the term, if it applies an abstraction, can be reduced without
/// leaving the indices of 32 bits.
pub open spec fn can_reduce(term: Term) -> bool {
    match redex(term) {
        Some((body, arg)) => can_shift(arg, 1, 0) && can_substitute(body, 0, shifted(arg, 1, 0))
            && can_shift(substituted(body, 0, shifted(arg, 1, 0)), -1, 0),
        None => true,
    }
}

/// The term after one step of beta reduction at its root: the body of the
/// abstraction with the argument in the place of its variable. Any other
/// term stays as it is.
pub open spec fn reduced(term: Term) -> Term {
    match redex(term) {
        Some((body, arg)) => shifted(substituted(body, 0, shifted(arg, 1, 0)), -1, 0),
        None => term,
    }
}

/// The normal form of the term, found by reducing its parts first and
/// then its root, as long as the root changes. `fuel` bounds the number of
/// reductions that follow one another; there is no result where it runs
/// out or where an index leaves the 32 bits.
pub open spec fn evaluated(term: Term, fuel: nat) -> Option<Term>
    decreases fuel, term,
{
    match term {
        Term::Var { .. } => Some(term),
        Term::App { inner, arg } => match evaluated(*inner, fuel) {
            None => None,
            Some(function) => match evaluated(*arg, fuel) {
                None => None,
                Some(argument) => {
                    let simplified = Term::App {
                        inner: Box::new(function),
                        arg: Box::new(argument),
                    };
                    if !can_reduce(simplified) {
                        None
                    } else if reduced(simplified) == simplified {
                        Some(simplified)
                    } else if fuel == 0 {
                        None
                    } else {
                        evaluated(reduced(simplified), (fuel - 1) as nat)
                    }
                },
            },
        },
        Term::Abs { inner } => match evaluated(*inner, fuel) {
            None => None,
            Some(body) => Some(Term::Abs { inner: Box::new(body) }),
        },
    }
}

impl Term {
    /// Whether the term can be shifted; see [`can_shift`].
    pub fn can_shift_by(&self, delta: Delta, cutoff: Ind) -> (possible: bool)
        ensures
            possible == can_shift(*self, delta as int, cutoff as int),
        decreases self,
    {
        match self {
            Term::Var { ind } => *ind < cutoff || ind.checked_add(delta).is_some(),
            Term::App { inner, arg } => inner.can_shift_by(delta, cutoff) && arg.can_shift_by(
                delta,
                cutoff,
            ),
            Term::Abs { inner } => cutoff < i32::MAX && inner.can_shift_by(delta, cutoff + 1),
        }
    }

    /// Moves the free variables of the term by `delta`.
    pub fn shift(&self, delta: Delta) -> (term: Term)
        requires
            can_shift(*self, delta as int, 0),
        ensures
            term == shifted(*self, delta as int, 0),
    {
        self.shift_with_cutoff(delta, 0)
    }

    /// Moves the variables of the term from `cutoff` on by `delta`.
    pub fn shift_with_cutoff(&self, delta: Delta, cutoff: Ind) -> (term: Term)
        requires
            can_shift(*self, delta as int, cutoff as int),
        ensures
            term == shifted(*self, delta as int, cutoff as int),
        decreases self,
    {
        match self {
            Term::Var { ind } => {
                if *ind < cutoff {
                    clone_term(self)
                } else {
                    var(*ind + delta)
                }
            },
            Term::App { inner, arg } => app(
                inner.shift_with_cutoff(delta, cutoff),
                arg.shift_with_cutoff(delta, cutoff),
            ),
            Term::Abs { inner } => abs(inner.shift_with_cutoff(delta, cutoff + 1)),
        }
    }

    /// Whether `with` can be put for `x`; see [`can_substitute`].
    pub fn can_substitute_for(&self, x: Ind, with: &Term) -> (possible: bool)
        ensures
            possible == can_substitute(*self, x as int, *with),
        decreases self,
    {
        match self {
            Term::Var { .. } => true,
            Term::App { inner, arg } => inner.can_substitute_for(x, with) && arg.can_substitute_for(
                x,
                with,
            ),
            Term::Abs { inner } => {
                if x < i32::MAX && with.can_shift_by(1, 0) {
                    inner.can_substitute_for(x + 1, &with.shift(1))
                } else {
                    false
                }
            },
        }
    }

    /// Puts `with` in the place of the variable `x`.
    pub fn substitute(&self, x: Ind, with: &Term) -> (term: Term)
        requires
            can_substitute(*self, x as int, *with),
        ensures
            term == substituted(*self, x as int, *with),
        decreases self,
    {
        match self {
            Term::Var { ind } => {
                if *ind == x {
                    clone_term(with)
                } else {
                    clone_term(self)
                }
            },
            Term::App { inner, arg } => app(inner.substitute(x, with), arg.substitute(x, with)),
            Term::Abs { inner } => abs(inner.substitute(x + 1, &with.shift(1))),
        }
    }

    /// One step of beta reduction at the root; see [`reduced`].
    pub fn beta_reduce(&self) -> (term: Term)
        requires
            can_reduce(*self),
        ensures
            term == reduced(*self),
    {
        if let Term::App { inner, arg } = self {
            if let Term::Abs { inner: body } = &**inner {
                return body.substitute(0, &arg.shift(1)).shift(-1);
            }
        }
        clone_term(self)
    }

    /// One step of beta reduction at the root, where the indices allow it.
    pub fn try_beta_reduce(&self) -> (term: Option<Term>)
        ensures
            term == if can_reduce(*self) {
                Some(reduced(*self))
            } else {
                None
            },
    {
        if let Term::App { inner, arg } = self {
            if let Term::Abs { inner: body } = &**inner {
                if !arg.can_shift_by(1, 0) {
                    return None;
                }
                let lifted = arg.shift(1);
                if !body.can_substitute_for(0, &lifted) {
                    return None;
                }
                let replaced = body.substitute(0, &lifted);
                if !replaced.can_shift_by(-1, 0) {
                    return None;
                }
                return Some(replaced.shift(-1));
            }
        }
        Some(clone_term(self))
    }

    /// The normal form of the term; see [`evaluated`].
    pub fn eval(&self, fuel: u32) -> (term: Option<Term>)
        ensures
            term == evaluated(*self, fuel as nat),
        decreases fuel, self,
    {
        match self {
            Term::Var { .. } => Some(clone_term(self)),
            Term::App { inner, arg } => {
                let function = match inner.eval(fuel) {
                    Some(function) => function,
                    None => {
                        return None;
                    },
                };
                let argument = match arg.eval(fuel) {
                    Some(argument) => argument,
                    None => {
                        return None;
                    },
                };
                let simplified = app(function, argument);
                let reduced = match simplified.try_beta_reduce() {
                    Some(reduced) => reduced,
                    None => {
                        return None;
                    },
                };
                if !term_eq(&reduced, &simplified) {
                    if fuel == 0 {
                        return None;
                    }
                    return reduced.eval(fuel - 1);
                }
                Some(simplified)
            },
            Term::Abs { inner } => match inner.eval(fuel) {
                Some(body) => Some(abs(body)),
                None => None,
            },
        }
    }
}

/// The variable `f` applied `n` times to the variable `x`, under the two
/// binders of a numeral.
pub open spec fn applications(n: nat) -> Term
    decreases n,
{
    if n == 0 {
        Term::Var { ind: 0 }
    } else {
        Term::App {
            inner: Box::new(Term::Var { ind: 1 }),
            arg: Box::new(applications((n - 1) as nat)),
        }
    }
}

/// The Church numeral of `n`; of zero where `n` is negative.
pub open spec fn church_numeral(n: int) -> Term {
    Term::Abs {
        inner: Box::new(
            Term::Abs {
                inner: Box::new(
                    applications(
                        if n > 0 {
                            n as nat
                        } else {
                            0
                        },
                    ),
                ),
            },
        ),
    }
}

/// The Church boolean: the function of two arguments that returns the
/// first for `true` and the second for `false`.
pub open spec fn church_boolean(b: bool) -> Term {
    Term::Abs {
        inner: Box::new(
            Term::Abs {
                inner: Box::new(
                    Term::Var {
                        ind: if b {
                            1
                        } else {
                            0
                        },
                    },
                ),
            },
        ),
    }
}

/// The Church boolean of `b`.
pub fn church_bool(b: bool) -> (term: Term)
    ensures
        term == church_boolean(b),
{
    abs(
        abs(
            var(
                if b {
                    1
                } else {
                    0
                },
            ),
        ),
    )
}

/// Negation: the boolean applied to `false` and `true`.
pub fn church_not() -> (term: Term)
    ensures
        term == (Term::Abs {
            inner: Box::new(
                Term::App {
                    inner: Box::new(
                        Term::App {
                            inner: Box::new(Term::Var { ind: 0 }),
                            arg: Box::new(church_boolean(false)),
                        },
                    ),
                    arg: Box::new(church_boolean(true)),
                },
            ),
        }),
{
    abs(app(app(var(0), church_bool(false)), church_bool(true)))
}

/// The Church numeral of `n`.
pub fn church_nat(n: i32) -> (term: Term)
    ensures
        term == church_numeral(n as int),
{
    let mut curr = var(0);
    let mut i: i32 = 0;
    while i < n
        invariant
            0 <= i,
            n >= 0 ==> i <= n,
            n < 0 ==> i == 0,
            curr == applications(i as nat),
        decreases n - i,
    {
        curr = app(var(1), curr);
        i += 1;
    }
    abs(abs(curr))
}

/// Addition of numerals: `m. n. f. x. (m f) ((n f) x)`.
pub fn church_plus() -> (term: Term)
    ensures
        term == (Term::Abs {
            inner: Box::new(
                Term::Abs {
                    inner: Box::new(
                        Term::Abs {
                            inner: Box::new(
                                Term::Abs {
                                    inner: Box::new(
                                        Term::App {
                                            inner: Box::new(
                                                Term::App {
                                                    inner: Box::new(Term::Var { ind: 3 }),
                                                    arg: Box::new(Term::Var { ind: 1 }),
                                                },
                                            ),
                                            arg: Box::new(
                                                Term::App {
                                                    inner: Box::new(
                                                        Term::App {
                                                            inner: Box::new(Term::Var { ind: 2 }),
                                                            arg: Box::new(Term::Var { ind: 1 }),
                                                        },
                                                    ),
                                                    arg: Box::new(Term::Var { ind: 0 }),
                                                },
                                            ),
                                        },
                                    ),
                                },
                            ),
                        },
                    ),
                },
            ),
        }),
{
    abs(abs(abs(abs(app(app(var(3), var(1)), app(app(var(2), var(1)), var(0)))))))
}

} // verus!
