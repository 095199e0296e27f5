use std::str::FromStr;

use yggdrasil::results::YResult;
use yggdrasil::str2ast::YState;

/// ```ygg
/// climb Expr {
///     | Atom                    #Atom
///     | lhs:Self '^' rhs:Self   #Pow
///     | lhs:Self '*' rhs:Self   #Mul
///     | lhs:Self '+' rhs:Self   #Add
/// }
/// ```
pub enum Expr {
    Atom { atom: usize },
    Pow { lhs: Box<Expr>, rhs: Box<Expr> },
    #[allow(dead_code)]
    Mul { lhs: Box<Expr>, rhs: Box<Expr> },
    Add { lhs: Box<Expr>, rhs: Box<Expr> },
}

impl Expr {
    pub fn parse(state: YState) -> YResult<Expr> {
        let (state, expr_lifted) = ExprAdd::parse(state)?;
        state.finish(expr_lifted.ascent())
    }
}

enum ExprAtom {
    Atom(usize),
}

impl ExprAtom {
    pub fn parse(state: YState) -> YResult<ExprAtom> {
        let (state, atom) = state.match_repeat_m_n(1, usize::MAX, |state| state.match_char_range('0', '9'))?;
        let num = String::from_iter(atom);
        state.finish(ExprAtom::Atom(usize::from_str(&num).unwrap()))
    }

    pub fn ascent(self) -> Expr {
        match self {
            ExprAtom::Atom(atom) => Expr::Atom { atom },
        }
    }
}

/// `(atom '^')* atom`
struct ExprPow {
    atom: Vec<ExprAtom>,
}

impl ExprPow {
    pub fn parse(state: YState) -> YResult<ExprPow> {
        let mut atom = vec![];
        let (state, atom1) = state.match_repeats(ExprPow::parse_aux1)?;
        atom.extend(atom1);
        let (state, atom2) = ExprAtom::parse(state)?;
        atom.push(atom2);
        state.finish(ExprPow { atom })
    }

    // fold tree by right
    pub fn ascent(mut self) -> Expr {
        let mut expr = self.atom.remove(self.atom.len() - 1).ascent();
        for atom in self.atom.into_iter().rev() {
            expr = Expr::Pow { lhs: Box::new(atom.ascent()), rhs: Box::new(expr) };
        }
        expr
    }

    // atom '^'
    pub fn parse_aux1(state: YState) -> YResult<ExprAtom> {
        let (state, atom) = ExprAtom::parse(state)?;
        let (state, _) = state.match_char('^')?;
        state.finish(atom)
    }
}

/// `pow ('+' pow)*`
struct ExprAdd {
    pow: Vec<ExprPow>,
}

impl ExprAdd {
    // fold tree by left
    fn ascent(mut self) -> Expr {
        let mut expr = self.pow.remove(0).ascent();
        for pow in self.pow.into_iter() {
            expr = Expr::Add { lhs: Box::new(expr), rhs: Box::new(pow.ascent()) };
        }
        expr
    }

    fn parse(state: YState) -> YResult<ExprAdd> {
        let mut pow = vec![];
        let (state, pow1) = ExprPow::parse(state)?;
        pow.push(pow1);
        let (state, pow2) = state.match_repeat_m_n(0, usize::MAX, ExprAdd::parse_aux1)?;
        pow.extend(pow2);
        state.finish(ExprAdd { pow })
    }

    fn parse_aux1(state: YState) -> YResult<ExprPow> {
        let (state, _) = state.match_char('+')?;
        let (state, pow) = ExprPow::parse(state)?;
        state.finish(pow)
    }
}

impl Expr {
    fn text(&self) -> String {
        match self {
            Expr::Add { lhs, rhs } => format!("({} + {})", lhs.text(), rhs.text()),
            Expr::Mul { lhs, rhs } => format!("({} * {})", lhs.text(), rhs.text()),
            Expr::Pow { lhs, rhs } => format!("({} ^ {})", lhs.text(), rhs.text()),
            Expr::Atom { atom } => format!("{}", atom),
        }
    }
}

fn shown(text: &str) -> String {
    let (state, expr) = Expr::parse(YState::new(text)).unwrap();
    assert_eq!(state.start_offset, text.len());
    expr.text()
}

#[test]
fn pow_test_output_1() {
    println!("{:#?}", Expr::parse(YState::new("1+2+3")).map(|found| found.1.text()));
    println!("{:#?}", Expr::parse(YState::new("4^5^6")).map(|found| found.1.text()));
    println!("{:#?}", Expr::parse(YState::new("1+2+3+4^5^6")).map(|found| found.1.text()));
    assert_eq!(shown("1+2+3"), "((1 + 2) + 3)");
    assert_eq!(shown("4^5^6"), "(4 ^ (5 ^ 6))");
    assert_eq!(shown("1+2+3+4^5^6"), "(((1 + 2) + 3) + (4 ^ (5 ^ 6)))");
}

#[test]
fn pow_stops_where_no_number_follows() {
    let (state, expr) = Expr::parse(YState::new("7+")).unwrap();
    assert_eq!(state.start_offset, 1);
    assert_eq!(expr.text(), "7");
    assert!(Expr::parse(YState::new("+7")).is_err());
}
