use nar20_1::nar_goal_system::{convProcTermToQaTerm, retSubSeqAsSeqOrTerm};
use nar20_1::nar_inf_procedural::{infGoalBelief, infGoalDetach, matchandintro_var1};
use nar20_1::nar_inference::Premise;
use nar20_1::nar_sentence::EnumPunctation;
use nar20_1::nar_stamp::newStamp;
use nar20_1::term::{convTermToStr, Copula, Term};

fn name(n: &str) -> Term {
    Term::Name(n.to_string())
}

fn stmt(c: Copula, a: Term, b: Term) -> Term {
    Term::Stmt(c, Box::new(a), Box::new(b))
}

fn seq(v: Vec<Term>) -> Term {
    Term::Sequence(v.into_iter().map(Box::new).collect())
}

#[test]
fn qa_term_of_variables() {
    let t = stmt(
        Copula::INH,
        Term::DepVar("a".to_string()),
        Term::Prod(vec![Box::new(Term::IndepVar("b".to_string())), Box::new(Term::QVar("c".to_string())), Box::new(name("d"))]),
    );
    assert_eq!(convTermToStr(&convProcTermToQaTerm(&t)), "<?D_a --> ( ?I_b * ?Q_c * d )>");
    let img = Term::Img(Box::new(Term::IndepVar("r".to_string())), 0, vec![Box::new(name("x"))]);
    assert_eq!(convTermToStr(&convProcTermToQaTerm(&Term::Neg(Box::new(img)))), "(! ( ?I_r /1 x ) )");
}

#[test]
fn sub_sequence_as_term() {
    let one = vec![Box::new(name("a"))];
    assert_eq!(convTermToStr(&retSubSeqAsSeqOrTerm(&one)), "a");
    let two = vec![Box::new(name("a")), Box::new(name("b"))];
    assert_eq!(convTermToStr(&retSubSeqAsSeqOrTerm(&two)), "( a , b )");
    let none: Vec<Box<Term>> = vec![];
    assert!(matches!(retSubSeqAsSeqOrTerm(&none), Term::Sequence(v) if v.is_empty()));
}

fn premise(term: Term, punct: EnumPunctation, ids: Vec<i64>) -> Premise {
    Premise { term: term, punct: punct, stamp: newStamp(&ids) }
}

#[test]
fn goal_deduction() {
    let goal = premise(name("b"), EnumPunctation::GOAL, vec![1]);
    let belief = premise(stmt(Copula::PREDIMPL, name("a"), name("b")), EnumPunctation::JUGEMENT, vec![2]);
    let d = infGoalBelief(&goal, &belief).unwrap();
    assert_eq!(convTermToStr(&d.term), "a");
    assert_eq!(d.punct, EnumPunctation::GOAL);
    assert_eq!(d.stamp.ids, vec![1, 2]);
    // other goal, overlap, or no predictive implication: nothing
    assert!(infGoalBelief(&premise(name("c"), EnumPunctation::GOAL, vec![1]), &belief).is_none());
    assert!(infGoalBelief(&premise(name("b"), EnumPunctation::GOAL, vec![2]), &belief).is_none());
    let inh = premise(stmt(Copula::INH, name("a"), name("b")), EnumPunctation::JUGEMENT, vec![2]);
    assert!(infGoalBelief(&goal, &inh).is_none());
}

#[test]
fn goal_detachment() {
    let g = premise(seq(vec![name("a"), name("b")]), EnumPunctation::GOAL, vec![4]);
    let d = infGoalDetach(&g).unwrap();
    assert_eq!(convTermToStr(&d.term), "a");
    assert_eq!(d.punct, EnumPunctation::GOAL);
    assert_eq!(d.stamp.ids, vec![4]);
    assert!(infGoalDetach(&premise(name("a"), EnumPunctation::GOAL, vec![4])).is_none());
    assert!(infGoalDetach(&premise(seq(vec![]), EnumPunctation::GOAL, vec![4])).is_none());
}

#[test]
fn variable_introduction() {
    // < (x --> [y], ^op) =/> <x --> z> >: x occurs twice
    let cond = stmt(Copula::INH, name("x"), Term::SetInt(vec![Box::new(name("y"))]));
    let t = stmt(Copula::PREDIMPL, seq(vec![cond.clone(), name("^op")]), stmt(Copula::INH, name("x"), name("z")));
    let v = Term::IndepVar("v".to_string());
    let res = matchandintro_var1(&t, &v);
    assert_eq!(res.len(), 1);
    assert_eq!(convTermToStr(&res[0]), "<( <$v --> [y]> , ^op ) =/> <$v --> z>>");
    // x occurs once: nothing
    let t1 = stmt(Copula::PREDIMPL, seq(vec![cond.clone(), name("^op")]), name("g"));
    assert!(matchandintro_var1(&t1, &v).is_empty());
    // the predicate of the condition is no intensional set: nothing
    let cond2 = stmt(Copula::INH, name("x"), name("y"));
    let t2 = stmt(Copula::PREDIMPL, seq(vec![cond2, name("^op")]), stmt(Copula::INH, name("x"), name("z")));
    assert!(matchandintro_var1(&t2, &v).is_empty());
    // not a sequence of two
    let t3 = stmt(Copula::PREDIMPL, seq(vec![cond.clone()]), stmt(Copula::INH, name("x"), name("z")));
    assert!(matchandintro_var1(&t3, &v).is_empty());
}

use nar20_1::nar_goal_system::{event_occurred, goalByState, query, query_by_antecedent, query_by_consequence};
use nar20_1::nar_proc::{build_evidence, encodeOp, SimpleSentence};

#[test]
fn evidence_by_antecedent_and_consequence() {
    let beliefs = vec![
        stmt(Copula::PREDIMPL, seq(vec![name("a"), name("^op")]), name("g")),
        stmt(Copula::PREDIMPL, seq(vec![name("b"), name("^op")]), name("a")),
        stmt(Copula::INH, name("a"), name("g")),
        stmt(Copula::PREDIMPL, seq(vec![name("a")]), name("h")),
    ];
    assert_eq!(query_by_antecedent(&name("a"), &beliefs), vec![0, 3]);
    assert_eq!(query_by_consequence(&name("a"), &beliefs), vec![1]);
    assert_eq!(query_by_consequence(&name("g"), &beliefs), vec![0]);
}

#[test]
fn goals_met_by_events() {
    let goals = vec![name("a"), name("b"), name("a")];
    assert_eq!(event_occurred(&goals, &name("a"), true), vec![0, 2]);
    assert_eq!(event_occurred(&goals, &name("a"), false), Vec::<usize>::new());
    assert_eq!(query(&goals, &name("b")), Some(1));
    assert_eq!(query(&goals, &name("c")), None);
}

#[test]
fn goal_matched_by_state() {
    // (<$x --> s>, ^op)! matched with <a --> s> gives (<a --> s>, ^op)
    let goal = seq(vec![stmt(Copula::INH, Term::IndepVar("x".to_string()), name("s")), name("^op")]);
    let res = goalByState(&goal, &stmt(Copula::INH, name("a"), name("s"))).unwrap();
    assert_eq!(convTermToStr(&res), "( <a --> s> , ^op )");
    assert!(goalByState(&goal, &name("z")).is_none());
    assert!(goalByState(&name("a"), &name("a")).is_none());
    // more than one event before the last: they are matched as a sequence
    let goal3 = seq(vec![name("a"), name("b"), name("^op")]);
    assert!(goalByState(&goal3, &seq(vec![name("a"), name("b")])).is_some());
}

#[test]
fn evidence_from_drawn_events() {
    let op = encodeOp(&vec![name("SELF")], &"^go".to_string());
    let trace = vec![
        SimpleSentence { name: name("a"), evi: 10, occT: 1 },
        SimpleSentence { name: op.clone(), evi: 11, occT: 2 },
        SimpleSentence { name: name("x"), evi: 12, occT: 3 },
        SimpleSentence { name: name("b"), evi: 13, occT: 7 },
    ];
    let names = vec!["^go".to_string()];
    let table = vec![0, 1, 2, 4, 8];
    let (t, expDt, ids) = build_evidence(&names, &trace, &vec![0, 1, 3], &table).unwrap();
    assert_eq!(convTermToStr(&t), "<( a , <{( SELF )} --> ^go> ) =/> b>");
    // 7 - 2 = 5 lies between 4 and 8
    assert_eq!(expDt, 3);
    assert_eq!(ids, vec![10, 11, 13]);
    assert!(build_evidence(&names, &trace, &vec![0, 2, 3], &table).is_none());
}

#[test]
fn perception_components() {
    use_perception();
}

fn use_perception() {
    let events = vec![
        nar20_1::nar_perception::SentenceDummy { isOp: false, term: name("a"), t: 0 },
        nar20_1::nar_perception::SentenceDummy { isOp: true, term: name("^op"), t: 1 },
        nar20_1::nar_perception::SentenceDummy { isOp: false, term: name("b"), t: 2 },
    ];
    assert_eq!(nar20_1::nar_perception::mapArrSentencesByOp(&events), vec![false, true, false]);
    let t = stmt(Copula::INH, name("a"), seq(vec![name("a"), name("b")]));
    let all: Vec<String> = nar20_1::nar_perception::termEnum(&t).iter().map(|x| convTermToStr(x)).collect();
    assert_eq!(all, vec!["<a --> ( a , b )>", "a", "( a , b )", "a", "b"]);
    let i = nar20_1::nar_perception::Impl2 { dir: 1, eviPos: 2, eviCnt: 3, expT: 0 };
    assert_eq!((i.dir, i.eviPos, i.eviCnt, i.expT), (1, 2, 3, 0));
}
