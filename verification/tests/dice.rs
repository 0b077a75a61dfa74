use dminion::dice::ast::{Node, Selection};
use dminion::dice::eval::{DieRoll, Error as EvalError, Evaluation, Evaluator};
use dminion::dice::lexer::{Error as LexError, Keyword, Lexer, Token};
use dminion::dice::lookahead::Lookahead;
use dminion::dice::parser::{parse, Error as ParseError};
use dminion::dice::pool::{mark_dice, sort_dice, sum_kept, sum_results};
use dminion::dice::pp::{print, PP};
use dminion::dice::{roll, DiceExpr, Error};
use rand::rngs::StdRng;
use rand::SeedableRng;

fn lit(value: i32) -> Box<Node> {
    Box::new(Node::Lit { value })
}

fn expr(text: &str) -> DiceExpr {
    DiceExpr::parse(text).unwrap()
}

fn die(sides: i32, result: i32, keep: bool) -> DieRoll {
    DieRoll { sides, result, keep }
}

#[test]
fn round_trip_of_canonical_text() {
    for text in [
        "1d20 + 5",
        "4d6kh3",
        "2d20kl1",
        "1d20adv",
        "1d20dis",
        "3d8 + 2 - 1",
        "2 \u{d7} (3 + 4)",
        "-(1 + 2) / 3",
        "1d100dl1kh2",
        "--5",
        "10 / 2 \u{d7} 3",
        "(1d4 + 1) \u{d7} (2d6dh1 - 3)",
    ] {
        assert_eq!(expr(text).to_string(), text);
    }
}

#[test]
fn printing_is_canonical() {
    assert_eq!(expr("d20+5").to_string(), "1d20 + 5");
    assert_eq!(expr("4d").to_string(), "4d6");
    assert_eq!(expr("2D%K").to_string(), "2d100kh1");
    assert_eq!(expr("4d6d").to_string(), "4d6dl1");
    assert_eq!(expr("4d6 k 2 d 1").to_string(), "4d6kh2dl1");
    assert_eq!(expr("1d20 ad").to_string(), "1d20adv");
    assert_eq!(expr("1d20 da").to_string(), "1d20dis");
    assert_eq!(expr("[1+2]*3").to_string(), "(1 + 2) \u{d7} 3");
    assert_eq!(expr("6 \u{f7} 3").to_string(), "6 / 3");
    assert_eq!(expr("1 - (2 - 3)").to_string(), "1 - 2 - 3");
    assert_eq!(expr("  7  ").to_string(), "7");
}

#[test]
fn printer_appends_to_its_sink() {
    let mut text = String::from("roll: ");
    let tree = parse("2d6 + 1").unwrap();
    {
        let mut pp = PP::new(&mut text);
        pp.write(&tree);
        pp.write(&Node::Lit { value: -3 });
    }
    assert_eq!(text, "roll: 2d6 + 1-3");
    assert_eq!(print(&Node::Neg { right: lit(i32::MIN) }), "--2147483648");
}

#[test]
fn same_seed_same_roll() {
    let e = expr("4d6kh3 + 2d8 - 1d20adv");
    let a = e.roll(&mut StdRng::seed_from_u64(42)).unwrap();
    let b = e.clone().roll(&mut StdRng::seed_from_u64(42)).unwrap();
    assert_eq!(a.value, b.value);
    assert_eq!(a.dice, b.dice);
}

#[test]
fn rolls_lie_between_min_and_max() {
    for text in [
        "4d6kh3",
        "2d20kl1",
        "1d20adv + 3",
        "3d8 + 2",
        "2d6 \u{d7} 3",
        "3d100dl1kh1dis",
        "3d8 + 2 - 1",
        "2d6 / 2",
        "-5 + 1d4",
        "(2 - 5) + 1d6 \u{d7} 2",
        "1d12 \u{d7} (1d4 + 1)",
        "(4d10dl1 - 3) / 2",
    ] {
        let e = expr(text);
        let low = e.min().unwrap();
        let high = e.max().unwrap();
        let mut rng = StdRng::seed_from_u64(7);
        for _ in 0..200 {
            let r = e.roll(&mut rng).unwrap();
            assert!(low <= r.value && r.value <= high, "{} gave {}", text, r.value);
            for d in r.dice.iter() {
                assert!(1 <= d.result && d.result <= d.sides);
            }
        }
    }
}

#[test]
fn four_d6_keep_highest_three() {
    let e = expr("4d6kh3");
    let mut rng = StdRng::seed_from_u64(1);
    for _ in 0..100 {
        let r = e.roll(&mut rng).unwrap();
        assert_eq!(r.dice.len(), 4);
        assert_eq!(r.dice.iter().filter(|d| d.keep).count(), 3);
        let kept: i32 = r.dice.iter().filter(|d| d.keep).map(|d| d.result).sum();
        assert_eq!(r.value, kept);
        let dropped = r.dice.iter().find(|d| !d.keep).unwrap();
        assert!(r.dice.iter().all(|d| d.result >= dropped.result));
        assert!(r.dice.windows(2).all(|w| w[0].result >= w[1].result));
    }
    assert_eq!(e.min().unwrap(), 3);
    assert_eq!(e.mid().unwrap(), 9);
    assert_eq!(e.max().unwrap(), 18);
}

#[test]
fn two_d20_keep_lowest() {
    let e = expr("2d20kl1");
    let mut rng = StdRng::seed_from_u64(2);
    for _ in 0..100 {
        let r = e.roll(&mut rng).unwrap();
        assert_eq!(r.dice.len(), 2);
        let low = r.dice.iter().map(|d| d.result).min().unwrap();
        assert_eq!(r.value, low);
        assert_eq!(r.dice.iter().filter(|d| d.keep).count(), 1);
    }
}

#[test]
fn advantage_keeps_the_higher_throw() {
    let e = expr("1d20adv");
    let mut rng = StdRng::seed_from_u64(3);
    for _ in 0..100 {
        let r = e.roll(&mut rng).unwrap();
        assert_eq!(r.dice.len(), 2);
        assert_eq!(r.dice.iter().filter(|d| d.keep).count(), 1);
        let high = r.dice.iter().map(|d| d.result).max().unwrap();
        assert_eq!(r.value, high);
    }
    let e = expr("1d20dis");
    for _ in 0..100 {
        let r = e.roll(&mut rng).unwrap();
        assert_eq!(r.dice.iter().filter(|d| d.keep).count(), 1);
        let low = r.dice.iter().map(|d| d.result).min().unwrap();
        assert_eq!(r.value, low);
    }
}

#[test]
fn division_rounds_toward_zero() {
    assert_eq!(expr("5/2").min().unwrap(), 2);
    assert_eq!(expr("-5/2").min().unwrap(), -2);
    assert_eq!(expr("5/-2").max().unwrap(), -2);
    assert_eq!(expr("-5/-2").mid().unwrap(), 2);
    assert_eq!(expr("7/7").min().unwrap(), 1);
}

#[test]
fn selecting_more_dice_than_rolled() {
    let e = expr("3d6k5");
    match e.roll(&mut StdRng::seed_from_u64(4)) {
        Err(Error::EvalError(EvalError::InvalidSelection { selection_size, pool_size })) => {
            assert_eq!(selection_size, 5);
            assert_eq!(pool_size, 3);
        }
        other => panic!("{:?}", other),
    }
    assert!(matches!(
        e.min(),
        Err(Error::EvalError(EvalError::InvalidSelection { selection_size: 5, pool_size: 3 }))
    ));
    assert!(matches!(
        expr("4d6kh2dl3").max(),
        Err(Error::EvalError(EvalError::InvalidSelection { selection_size: 3, pool_size: 2 }))
    ));
}

#[test]
fn divide_by_zero_and_invalid_die() {
    assert!(matches!(expr("1/0").min(), Err(Error::EvalError(EvalError::DivideByZero))));
    assert!(matches!(
        expr("1/0").roll(&mut StdRng::seed_from_u64(5)),
        Err(Error::EvalError(EvalError::DivideByZero))
    ));
    match DiceExpr::parse("1d7") {
        Err(Error::ParseError(ParseError::InvalidDie(message))) => {
            assert_eq!(message, "Invalid die: d7")
        }
        other => panic!("{:?}", other.map(|e| e.to_string())),
    }
    for sides in [4, 6, 8, 10, 12, 20, 100] {
        assert!(DiceExpr::parse(&format!("1d{}", sides)).is_ok());
    }
    for sides in [0, 1, 2, 3, 5, 7, 9, 11, 30, 99, 101, 1000] {
        assert!(matches!(parse(&format!("1d{}", sides)), Err(ParseError::InvalidDie(_))));
    }
}

#[test]
fn implicit_count() {
    let tree = parse("d20+5").unwrap();
    assert_eq!(
        *tree,
        Node::Add {
            left: Box::new(Node::Roll { count: lit(1), sides: lit(20), select: None }),
            right: lit(5),
        }
    );
    let r = expr("d20+5").roll(&mut StdRng::seed_from_u64(6)).unwrap();
    assert_eq!(r.dice.len(), 1);
    assert_eq!(r.dice[0].sides, 20);
    assert_eq!(r.value, r.dice[0].result + 5);
    assert_eq!(expr("d20+5").min().unwrap(), 6);
    assert_eq!(expr("d20+5").max().unwrap(), 25);
    assert_eq!(expr("d20+5").mid().unwrap(), 15);
}

#[test]
fn parse_shapes() {
    assert_eq!(*parse("4d").unwrap(), Node::Roll { count: lit(4), sides: lit(6), select: None });
    assert_eq!(*parse("d%").unwrap(), Node::Roll { count: lit(1), sides: lit(100), select: None });
    assert_eq!(
        *parse("4d6kh3dl").unwrap(),
        Node::Roll {
            count: lit(4),
            sides: lit(6),
            select: Some(Box::new(Node::Select {
                selection: Selection::KeepHighest { count: Some(lit(3)) },
                next: Some(Box::new(Node::Select {
                    selection: Selection::DropLowest { count: None },
                    next: None,
                })),
            })),
        }
    );
    assert_eq!(
        *parse("2d8 kl dh2 adv").unwrap(),
        Node::Roll {
            count: lit(2),
            sides: lit(8),
            select: Some(Box::new(Node::Select {
                selection: Selection::KeepLowest { count: None },
                next: Some(Box::new(Node::Select {
                    selection: Selection::DropHighest { count: Some(lit(2)) },
                    next: Some(Box::new(Node::Select {
                        selection: Selection::Advantage,
                        next: None,
                    })),
                })),
            })),
        }
    );
    assert_eq!(
        *parse("1 + 2 * 3 - 4").unwrap(),
        Node::Sub {
            left: Box::new(Node::Add {
                left: lit(1),
                right: Box::new(Node::Mul { left: lit(2), right: lit(3) }),
            }),
            right: lit(4),
        }
    );
    assert_eq!(
        *parse("--5").unwrap(),
        Node::Neg { right: Box::new(Node::Neg { right: lit(5) }) }
    );
    assert_eq!(
        *parse("[1 - 2] / (3)").unwrap(),
        Node::Div { left: Box::new(Node::Sub { left: lit(1), right: lit(2) }), right: lit(3) }
    );
}

#[test]
fn parse_errors() {
    match parse("(1 + 2]") {
        Err(ParseError::MismatchedParentheses(m)) => {
            assert_eq!(m, "Closing ']' does not match opening '('")
        }
        other => panic!("{:?}", other),
    }
    match parse("[1 + 2") {
        Err(ParseError::UnexpectedEnd(m)) => assert_eq!(m, "Expression ended without closing ']'"),
        other => panic!("{:?}", other),
    }
    match parse("(1 2)") {
        Err(ParseError::UnexpectedToken(m)) => assert_eq!(m, "'2' unexpected in parenthetical"),
        other => panic!("{:?}", other),
    }
    match parse("1 +") {
        Err(ParseError::UnexpectedEnd(m)) => assert_eq!(m, "Unexpected end of input"),
        other => panic!("{:?}", other),
    }
    match parse("") {
        Err(ParseError::UnexpectedEnd(m)) => assert_eq!(m, "Unexpected end of input"),
        other => panic!("{:?}", other),
    }
    match parse("1 2") {
        Err(ParseError::UnexpectedToken(m)) => assert_eq!(m, "Unexpected leftover token: '2'"),
        other => panic!("{:?}", other),
    }
    match parse("2d6 Foo") {
        Err(ParseError::UnexpectedToken(m)) => assert_eq!(m, "Unexpected leftover token: 'Foo'"),
        other => panic!("{:?}", other),
    }
    match parse("* 3") {
        Err(ParseError::UnexpectedToken(m)) => assert_eq!(m, "'*' unexpected in factor"),
        other => panic!("{:?}", other),
    }
    match parse("2 + $") {
        Err(ParseError::LexError(e)) => assert_eq!(e, LexError { ch: '$', position: 4 }),
        other => panic!("{:?}", other),
    }
    match parse("1d7 $") {
        Err(ParseError::InvalidDie(m)) => assert_eq!(m, "Invalid die: d7"),
        other => panic!("{:?}", other),
    }
    assert!(matches!(DiceExpr::parse("1 +"), Err(Error::ParseError(ParseError::UnexpectedEnd(_)))));
    assert!(matches!(
        roll("2d6 +", &mut StdRng::seed_from_u64(1)),
        Err(Error::ParseError(ParseError::UnexpectedEnd(_)))
    ));
}

#[test]
fn lexer_tokens() {
    let mut lexer = Lexer::new(" 12 D kh KL dl dH adv Ad dis DA k foo + - * / \u{d7} \u{f7} % ( ) [ ]");
    let expected = [
        Token::Integer(12),
        Token::Word(Keyword::D),
        Token::Word(Keyword::Kh),
        Token::Word(Keyword::Kl),
        Token::Word(Keyword::Dl),
        Token::Word(Keyword::Dh),
        Token::Word(Keyword::Adv),
        Token::Word(Keyword::Ad),
        Token::Word(Keyword::Dis),
        Token::Word(Keyword::Da),
        Token::Word(Keyword::K),
        Token::Word(Keyword::Other),
        Token::Plus,
        Token::Minus,
        Token::Times,
        Token::Divide,
        Token::Times,
        Token::Divide,
        Token::Percent,
        Token::Open('('),
        Token::Close(')'),
        Token::Open('['),
        Token::Close(']'),
    ];
    for token in expected {
        assert_eq!(lexer.next_token(), Some(Ok(token)));
    }
    assert_eq!(lexer.next_token(), None);
    assert_eq!(lexer.next_token(), None);
}

#[test]
fn lexer_errors() {
    let mut lexer = Lexer::new("1 ? 2");
    assert_eq!(lexer.next_token(), Some(Ok(Token::Integer(1))));
    assert_eq!(lexer.next_token(), Some(Err(LexError { ch: '?', position: 2 })));
    assert_eq!(lexer.next_token(), Some(Err(LexError { ch: '?', position: 2 })));
    let mut lexer = Lexer::new("2147483647 2147483648");
    assert_eq!(lexer.next_token(), Some(Ok(Token::Integer(i32::MAX))));
    assert_eq!(lexer.next_token(), Some(Err(LexError { ch: '8', position: 20 })));
    let mut lexer = Lexer::new("4d6kh3");
    assert_eq!(lexer.next_token(), Some(Ok(Token::Integer(4))));
    assert_eq!(lexer.next_token(), Some(Ok(Token::Word(Keyword::D))));
    assert_eq!(lexer.next_token(), Some(Ok(Token::Integer(6))));
    assert_eq!(lexer.next_token(), Some(Ok(Token::Word(Keyword::Kh))));
    assert_eq!(lexer.next_token(), Some(Ok(Token::Integer(3))));
    assert_eq!(lexer.next_token(), None);
}

#[test]
fn lookahead_peeks_without_moving() {
    let mut la = Lookahead::new(Lexer::new("1 + x"));
    assert_eq!(la.peek(), Some(Ok(Token::Integer(1))));
    assert_eq!(la.peek(), Some(Ok(Token::Integer(1))));
    assert_eq!(la.next(), Some(Ok(Token::Plus)));
    assert_eq!(la.peek(), Some(Ok(Token::Plus)));
    assert_eq!(la.next(), Some(Ok(Token::Word(Keyword::Other))));
    let mut text = String::new();
    la.push_current(&mut text);
    assert_eq!(text, "x");
    assert_eq!(la.next(), None);
    assert_eq!(la.next(), None);
    assert_eq!(la.peek(), None);
}

#[test]
fn fixed_strategies() {
    let e = expr("2d6 + 1d8");
    // the value of a roll is the sum of every die kept so far
    assert_eq!(e.min().unwrap(), 2 + 3);
    assert_eq!(e.mid().unwrap(), 6 + (6 + 4));
    assert_eq!(e.max().unwrap(), 12 + 20);
    assert_eq!(expr("3d20kh1dl1").max().unwrap(), 0);
    assert_eq!(expr("1d100").mid().unwrap(), 50);
    assert_eq!(expr("0d6").max().unwrap(), 0);
    assert_eq!(expr("2 * 3 - 10").min().unwrap(), -4);
    assert_eq!(expr("2147483647 + 1").min().unwrap(), i32::MIN);
    assert_eq!(expr("-2147483647 - 2").min().unwrap(), i32::MAX);
    assert_eq!(expr("65536 * 65536").min().unwrap(), 0);
}

#[test]
fn later_rolls_count_the_dice_kept_before() {
    let e = expr("1d6 + 1d8");
    let mut rng = StdRng::seed_from_u64(11);
    for _ in 0..50 {
        let r = e.roll(&mut rng).unwrap();
        assert_eq!(r.dice.len(), 2);
        assert_eq!(r.value, 2 * r.dice[0].result + r.dice[1].result);
    }
}

#[test]
fn evaluator_on_hand_built_trees() {
    let mut rng = StdRng::seed_from_u64(12);
    let negative = Node::Roll { count: lit(-1), sides: lit(6), select: None };
    let mut ev = Evaluator::new(Evaluation::Min);
    assert_eq!(ev.eval(&negative), Err(EvalError::InvalidRoll { count: -1, sides: 6 }));
    let faceless = Node::Roll { count: lit(2), sides: lit(0), select: None };
    let mut ev = Evaluator::new(Evaluation::Rand(&mut rng));
    assert_eq!(ev.eval(&faceless), Err(EvalError::InvalidRoll { count: 2, sides: 0 }));
    let mut ev = Evaluator::new(Evaluation::Max);
    assert_eq!(ev.eval(&faceless), Ok(0));
    assert_eq!(ev.rolls, vec![die(0, 0, true), die(0, 0, true)]);
    let bare = Node::Select { selection: Selection::Advantage, next: None };
    let mut ev = Evaluator::new(Evaluation::Mid);
    assert_eq!(ev.eval(&bare), Err(EvalError::StackUnderflow));
    let nested = Node::Roll {
        count: Box::new(Node::Roll { count: lit(1), sides: lit(4), select: None }),
        sides: lit(6),
        select: None,
    };
    let mut ev = Evaluator::new(Evaluation::Max);
    assert_eq!(ev.eval(&nested), Ok(4 + 4 * 6));
    assert_eq!(ev.rolls.len(), 5);
    assert_eq!(ev.eval(&Node::Lit { value: 3 }), Ok(3));
    assert!(ev.rolls.is_empty());
    let huge = Node::Div { left: lit(i32::MIN), right: lit(-1) };
    assert_eq!(ev.eval(&huge), Ok(i32::MIN));
    let mut ev = Evaluator::new(Evaluation::Max);
    let drop = Node::Roll {
        count: lit(3),
        sides: lit(8),
        select: Some(Box::new(Node::Select {
            selection: Selection::DropHighest { count: Some(lit(-1)) },
            next: None,
        })),
    };
    assert_eq!(
        ev.eval(&drop),
        Err(EvalError::InvalidSelection { selection_size: (-1i32) as usize, pool_size: 3 })
    );
}

#[test]
fn dice_are_left_in_order() {
    let e = expr("5d6dl2");
    let mut rng = StdRng::seed_from_u64(13);
    for _ in 0..50 {
        let r = e.roll(&mut rng).unwrap();
        assert!(r.dice.windows(2).all(|w| w[0].result >= w[1].result));
        assert_eq!(r.dice.iter().filter(|d| d.keep).count(), 3);
        let lowest_kept = r.dice.iter().filter(|d| d.keep).map(|d| d.result).min().unwrap();
        assert!(r.dice.iter().filter(|d| !d.keep).all(|d| d.result <= lowest_kept));
    }
}

#[test]
fn pool_operations() {
    let mut v =
        vec![die(6, 2, true), die(6, 5, false), die(6, 2, false), die(6, 6, true), die(6, 1, true)];
    sort_dice(&mut v, 1, 4, true);
    assert_eq!(
        v,
        vec![die(6, 2, true), die(6, 6, true), die(6, 5, false), die(6, 2, false), die(6, 1, true)]
    );
    sort_dice(&mut v, 0, 5, false);
    assert_eq!(
        v,
        vec![die(6, 1, true), die(6, 2, true), die(6, 2, false), die(6, 5, false), die(6, 6, true)]
    );
    assert_eq!(sum_kept(&v), 9);
    assert_eq!(sum_results(&v, 1, 4), 9);
    assert_eq!(sum_results(&v, 2, 2), 0);
    mark_dice(&mut v, 0, 2, false);
    assert_eq!(sum_kept(&v), 6);
    mark_dice(&mut v, 2, 5, true);
    assert_eq!(sum_kept(&v), 13);
    let mut ties = vec![die(4, 3, true), die(4, 3, false), die(4, 3, true)];
    sort_dice(&mut ties, 0, 3, true);
    assert_eq!(ties, vec![die(4, 3, true), die(4, 3, false), die(4, 3, true)]);
}

#[test]
fn dice_show_different_faces() {
    let e = expr("1d100");
    let mut rng = StdRng::seed_from_u64(21);
    let mut seen = std::collections::HashSet::new();
    for _ in 0..200 {
        let r = e.roll(&mut rng).unwrap();
        assert_eq!(r.dice.len(), 1);
        assert!(1 <= r.value && r.value <= 100);
        seen.insert(r.value);
    }
    assert!(seen.len() > 20);
    assert!(seen.iter().any(|v| *v != 100));
}

#[test]
fn advantage_before_another_selection_does_not_read_back() {
    let text = expr("1d20 adv dis").to_string();
    assert_eq!(text, "1d20advdis");
    assert!(matches!(parse(&text), Err(ParseError::UnexpectedToken(_))));
    let text = expr("2d20 adv kh1").to_string();
    assert_eq!(text, "2d20advkh1");
    assert!(parse(&text).is_err());
}

#[test]
fn negation_lies_outside_the_bounds_law() {
    let e = expr("-1d6");
    assert_eq!(e.min().unwrap(), -1);
    assert_eq!(e.max().unwrap(), -6);
    let r = e.roll(&mut StdRng::seed_from_u64(3)).unwrap();
    assert!(-6 <= r.value && r.value <= -1);
}

struct Countdown(u8);

impl dminion::dice::lookahead::TokenSource for Countdown {
    type Item = u8;

    fn upcoming(&self) -> Option<u8> {
        if self.0 == 0 {
            None
        } else {
            Some(self.0 - 1)
        }
    }

    fn follows(&self, before: &Self) -> bool {
        self.0 == before.0.saturating_sub(1)
    }

    fn next_item(&mut self) -> Option<u8> {
        if self.0 == 0 {
            None
        } else {
            self.0 -= 1;
            Some(self.0)
        }
    }
}

#[test]
fn lookahead_over_another_source() {
    let mut la = Lookahead::new(Countdown(3));
    assert_eq!(la.peek(), Some(2));
    assert_eq!(la.peek(), Some(2));
    assert_eq!(la.next(), Some(1));
    assert_eq!(la.peek(), Some(1));
    assert_eq!(la.next(), Some(0));
    assert_eq!(la.next(), None);
    assert_eq!(la.next(), None);
    assert_eq!(la.peek(), None);
}

#[test]
fn many_dice() {
    let e = expr("30000d6kh10");
    let r = e.roll(&mut StdRng::seed_from_u64(5)).unwrap();
    assert_eq!(r.dice.len(), 30000);
    assert_eq!(r.dice.iter().filter(|d| d.keep).count(), 10);
    assert_eq!(r.value, 60);
    assert!(r.dice.windows(2).all(|w| w[0].result >= w[1].result));
    assert_eq!(e.max().unwrap(), 60);
    assert_eq!(e.min().unwrap(), 10);
}
