use nar20_1::env_pong3::{makeEnvState, simStep};
use nar20_1::exp_stopwatch::newStopwatch;
use nar20_1::mod_nlp_a::{conv_tokens_to_poss, pos_ret_codes, prot_pos0};
use nar20_1::nar_proc;
use nar20_1::nar_sentence::{convSentenceTermPunctToStr, usageUpdate, EnumPunctation, Usage};
use nar20_1::nars;
use nar20_1::op_lib::{OpNop, Op__nlp_rel_0, Op_nal9__exec_and_inject};
use nar20_1::proc_chaos_entry;
use nar20_1::proc_tic_tac_toe::{checkWinner, isDraw, playMove, MoveOutcome, retFieldAsString, trimNewline, tryMove, Gamestate};
use nar20_1::nar_proc::{checkIsCallableOp, encodeOp, try_build_implSeq};
use nar20_1::term::{convTermToStr, Copula, Term};
use nar20_1::utils::enforce;

fn name(n: &str) -> Term {
    Term::Name(n.to_string())
}

fn strings(v: &[&str]) -> Vec<String> {
    v.iter().map(|s| s.to_string()).collect()
}

#[test]
fn part_of_speech_codes() {
    assert_eq!(pos_ret_codes(), 18);
    assert_eq!(prot_pos0(strings(&["NNP", "VBZ", "JJ"])), vec![2, 0, 1, 7]);
    assert_eq!(prot_pos0(strings(&["NNP", "CC", "NNP", "VBP", "JJ"])), vec![2, 3, 2, 6, 1, 7]);
    assert_eq!(prot_pos0(strings(&["MD", "PRP", "IN", "VBG", "?", "WP", "VBT", "VB", "PRT_TO", "DT", ","])), vec![17, 16, 15, 14, 13, 12, 11, 10, 9, 8, 4, 7]);
    assert_eq!(prot_pos0(vec![]), vec![7]);
}

#[test]
fn words_to_parts_of_speech() {
    let tokens = strings(&["Tom", "is", "fat"]);
    assert_eq!(conv_tokens_to_poss(&tokens), strings(&["NNP", "VBZ", "JJ"]));
    let tokens = strings(&["what", "can", "John", "to", "the", "food", "?"]);
    assert_eq!(conv_tokens_to_poss(&tokens), strings(&["WP", "MD", "NNP", "PRT_TO", "DT", "NN", "?"]));
}

#[test]
fn pong_initial_state() {
    let s = makeEnvState();
    assert_eq!((s.szX, s.szY), (50, 20));
    assert_eq!((s.ballX, s.ballY), (25, 4));
    assert_eq!((s.batX, s.batVX, s.batWidth, s.virtualBatWidth), (20, 0, 6, 6));
    assert_eq!((s.vX, s.vY, s.mulVX), (1, 1, 0));
    assert_eq!((s.hits, s.misses, s.t, s.verbosity), (0, 0, 0, 1));
}

#[test]
fn usage_update_records_the_use() {
    let mut u = Usage { lastUsed: 3, useCount: 4 };
    usageUpdate(&mut u, 10);
    assert_eq!(u.lastUsed, 10);
    assert_eq!(u.useCount, 5);
}

#[test]
fn tic_tac_toe_moves() {
    let mut g = Gamestate { field: vec![' '; 9], player: true };
    assert!(tryMove(&mut g, 4));
    assert_eq!(g.field[4], 'a');
    assert!(!tryMove(&mut g, 4));
    g.player = false;
    assert!(tryMove(&mut g, 0));
    assert_eq!(g.field[0], 'b');
    assert_eq!(retFieldAsString(&g.field), "bSSSaSSSS");
}

#[test]
fn trim_newlines_at_the_end() {
    let mut s = "abc\r\n\n".to_string();
    trimNewline(&mut s);
    assert_eq!(s, "abc");
    let mut s = "a\nb".to_string();
    trimNewline(&mut s);
    assert_eq!(s, "a\nb");
    let mut s = "".to_string();
    trimNewline(&mut s);
    assert_eq!(s, "");
}

#[test]
fn enforce_true_passes() {
    enforce(true);
}

#[test]
fn procedural_term_parts() {
    let cond = name("c");
    let op = name("^op");
    let sq = Term::Sequence(vec![Box::new(cond.clone()), Box::new(op.clone())]);
    let imp = Term::Stmt(Copula::PREDIMPL, Box::new(sq.clone()), Box::new(name("g")));
    assert_eq!(convTermToStr(&nar_proc::retPred(&imp)), "g");
    assert_eq!(convTermToStr(&nar_proc::retSubj(&imp)), "( c , ^op )");
    assert_eq!(convTermToStr(&nar_proc::retImplSeqOp(&imp)), "^op");
    assert_eq!(convTermToStr(&nar_proc::retSeqOp(&sq)), "^op");
    assert_eq!(convTermToStr(&nar_proc::retSeqCond(&imp)), "c");
    assert_eq!(convTermToStr(&nars::retPred(&imp)), "g");
    assert_eq!(convTermToStr(&nars::retSeqOp(&imp)), "^op");
    assert_eq!(convTermToStr(&nars::retSeqCond(&imp)), "c");
}

#[test]
fn procedural_op_encoding() {
    let op = nar_proc::encodeOp(&vec![name("x")], &"^left".to_string());
    assert_eq!(convTermToStr(&op), "<{( x )} --> ^left>");
    let (args, n) = nar_proc::decodeOp(&op).unwrap();
    assert_eq!(n, "^left");
    assert_eq!(args.len(), 1);
    assert!(nar_proc::decodeOp(&name("x")).is_none());
}

#[test]
fn exponential_interval_table() {
    let table = vec![0, 1, 2, 4, 8, 16];
    assert_eq!(nar_proc::findMinTableIdx(0, &table), 0);
    assert_eq!(nar_proc::findMinTableIdx(3, &table), 2);
    assert_eq!(nar_proc::findMinTableIdx(4, &table), 3);
    assert_eq!(nar_proc::findMinTableIdx(100, &table), 5);
    assert_eq!(nars::findMinTableIdx(5, &table), 3);
    assert_eq!(nar_proc::findMinTableIdx(5, &vec![]), -1);
}

#[test]
fn indices_of_op_events() {
    let trace = vec![
        nars::SimpleSentence { name: name("a"), evi: 0, occT: 0 },
        nars::SimpleSentence { name: name("^go"), evi: 1, occT: 1 },
        nars::SimpleSentence { name: name("b"), evi: 2, occT: 2 },
        nars::SimpleSentence { name: name("^stop"), evi: 3, occT: 3 },
    ];
    assert_eq!(nars::calcIdxsOfOps(&trace), vec![1, 3]);
}

#[test]
fn ops_of_the_library() {
    let nop = OpNop { name: "^L".to_string() };
    assert_eq!(nop.retName(), "^L");
    assert!(nop.isBabbleable());
    let nop2 = proc_chaos_entry::OpNop { selfName: "^R".to_string() };
    assert_eq!(nop2.retName(), "^R");
    assert!(nop2.isBabbleable());
    let ei = Op_nal9__exec_and_inject {};
    assert_eq!(ei.retName(), "^nal9_exeAndInject");
    assert!(!ei.isBabbleable());
    let nlp = Op__nlp_rel_0 {};
    assert_eq!(nlp.retName(), "^nlpRel0");
    assert!(!nlp.isBabbleable());
}

#[test]
fn exec_and_inject_plan() {
    let op = Op_nal9__exec_and_inject {};
    let ops = Term::Sequence(vec![Box::new(name("^a")), Box::new(name("^b"))]);
    let (seq, ev) = op.plan(&vec![name("SELF"), ops.clone(), name("e")]).unwrap();
    assert_eq!(seq.iter().map(|t| convTermToStr(t)).collect::<Vec<String>>(), vec!["^a", "^b"]);
    assert_eq!(convTermToStr(&ev), "e");
    // wrong number of arguments, or no sequence: nothing
    assert!(op.plan(&vec![name("SELF"), ops.clone()]).is_none());
    assert!(op.plan(&vec![name("SELF"), name("x"), name("e")]).is_none());
}

#[test]
fn nlp_relation_rewrite() {
    let op = Op__nlp_rel_0 {};
    let and_seq = Term::Sequence(vec![Box::new(name("tom")), Box::new(name("and")), Box::new(name("tim"))]);
    let rel = Term::Stmt(Copula::INH, Box::new(Term::Prod(vec![Box::new(name("x")), Box::new(and_seq)])), Box::new(name("r")));
    assert_eq!(convTermToStr(&op.rewriteRel(&rel)), "<( x * ( tom & tim ) ) --> r>");
    let or_seq = Term::Sequence(vec![Box::new(name("tom")), Box::new(name("or")), Box::new(name("tim"))]);
    let rel = Term::Stmt(Copula::INH, Box::new(Term::Prod(vec![Box::new(name("x")), Box::new(or_seq)])), Box::new(name("r")));
    assert_eq!(convTermToStr(&op.rewriteRel(&rel)), "<( x * ( tom , or , tim ) ) --> r>");
    assert_eq!(convTermToStr(&op.rewriteRel(&name("r"))), "r");
}

#[test]
fn stopwatch_measures_a_duration() {
    let mut s = newStopwatch();
    s.start();
    let d = s.stop();
    assert!(d.as_secs() < 60);
}

fn field(s: &str) -> Vec<char> {
    s.chars().collect()
}

#[test]
fn tic_tac_toe_winner() {
    assert_eq!(checkWinner(&field("aaa      ")), Some('a'));
    assert_eq!(checkWinner(&field("b  b  b  ")), Some('b'));
    assert_eq!(checkWinner(&field("a   a   a")), Some('a'));
    assert_eq!(checkWinner(&field("  b b b  ")), Some('b'));
    assert_eq!(checkWinner(&field("ab ba    ")), None);
    assert_eq!(checkWinner(&field("ab ab  b ")), Some('b'));
    // a row and a column share a cell, so they hold the same sign
    assert_eq!(checkWinner(&field("aaaa  a  ")), Some('a'));
    assert_eq!(checkWinner(&field("         ")), None);
    assert!(!isDraw(&field("abababab ")));
    assert!(isDraw(&field("abababbab")));
}

#[test]
fn callable_ops_and_implication_building() {
    let names = vec!["^left".to_string(), "^right".to_string()];
    let left = encodeOp(&vec![name("SELF")], &"^left".to_string());
    let up = encodeOp(&vec![name("SELF")], &"^up".to_string());
    assert!(checkIsCallableOp(&names, &left));
    assert!(!checkIsCallableOp(&names, &up));
    assert!(!checkIsCallableOp(&names, &name("^left")));

    let res = try_build_implSeq(&names, &[name("a"), left.clone(), name("b")]).unwrap();
    assert_eq!(convTermToStr(&res), "<( a , <{( SELF )} --> ^left> ) =/> b>");
    // the middle must be calls, the ends must not be, and the ends must differ
    assert!(try_build_implSeq(&names, &[name("a"), up.clone(), name("b")]).is_none());
    assert!(try_build_implSeq(&names, &[left.clone(), left.clone(), name("b")]).is_none());
    assert!(try_build_implSeq(&names, &[name("a"), left.clone(), left.clone()]).is_none());
    assert!(try_build_implSeq(&names, &[name("a"), left.clone(), name("a")]).is_none());
}

#[test]
fn sentence_as_text() {
    let t = Term::Stmt(Copula::INH, Box::new(name("a")), Box::new(name("b")));
    let tv = Some("{1 0.9}".to_string());
    assert_eq!(convSentenceTermPunctToStr(&t, EnumPunctation::JUGEMENT, &tv), "<a --> b>. {1 0.9}");
    assert_eq!(convSentenceTermPunctToStr(&t, EnumPunctation::GOAL, &tv), "<a --> b>! {1 0.9}");
    assert_eq!(convSentenceTermPunctToStr(&t, EnumPunctation::QUESTION, &tv), "<a --> b>?");
    assert_eq!(convSentenceTermPunctToStr(&t, EnumPunctation::JUGEMENT, &None), "<a --> b>.");
}

#[test]
fn pong_step_moves_the_ball() {
    let mut rng = rand::thread_rng();
    let mut s = makeEnvState();
    let ev = simStep(&mut s, &mut rng);
    assert!(!ev.hit && !ev.miss && !ev.respawn);
    assert_eq!(s.t, 1);
    // odd time step: the ball moves by its velocity
    assert_eq!((s.ballX, s.ballY), (26, 5));
    assert_eq!((s.vX, s.vY), (1, 1));
    assert_eq!(s.batX, 20);
    let ev = simStep(&mut s, &mut rng);
    assert!(!ev.respawn);
    assert_eq!((s.ballX, s.ballY), (26, 6));
}

#[test]
fn pong_hit_and_miss() {
    let mut rng = rand::thread_rng();
    let mut s = makeEnvState();
    s.ballY = 1;
    s.vY = -1;
    s.ballX = 22;
    s.t = 1; // even step next: no horizontal move
    let ev = simStep(&mut s, &mut rng);
    assert!(ev.hit && !ev.miss && ev.respawn);
    assert_eq!((s.hits, s.misses), (1, 0));
    assert!(10 <= s.ballY && s.ballY < 20);
    assert!(0 <= s.ballX && s.ballX < 50);
    assert!(s.vX == 1 || s.vX == -1);

    let mut s = makeEnvState();
    s.ballY = 1;
    s.vY = -1;
    s.ballX = 40;
    s.t = 1;
    let ev = simStep(&mut s, &mut rng);
    assert!(!ev.hit && ev.miss && ev.respawn);
    assert_eq!((s.hits, s.misses), (0, 1));
}

#[test]
fn pong_bat_moves_within_bounds() {
    let mut rng = rand::thread_rng();
    let mut s = makeEnvState();
    s.batVX = 3;
    simStep(&mut s, &mut rng);
    // 20 + 3 * 6 / 2
    assert_eq!(s.batX, 29);
    s.batVX = -30;
    simStep(&mut s, &mut rng);
    // kept at 2 * batWidth at least
    assert_eq!(s.batX, 12);
    s.batVX = -3;
    s.batX = 13;
    simStep(&mut s, &mut rng);
    // 13 - 9 rounds toward zero, then kept at 12
    assert_eq!(s.batX, 12);
}

#[test]
fn tic_tac_toe_game_steps() {
    let mut g = Gamestate { field: field("aa bb    "), player: true };
    assert_eq!(playMove(&mut g, 0), MoveOutcome::Invalid);
    assert!(g.player);
    assert_eq!(playMove(&mut g, 6), MoveOutcome::Next);
    assert!(!g.player);
    assert_eq!(playMove(&mut g, 5), MoveOutcome::Won('b'));
    let mut g = Gamestate { field: field("abaabbba "), player: true };
    assert_eq!(playMove(&mut g, 8), MoveOutcome::Draw);
}

#[test]
fn anticipations_step() {
    use_anticipations();
}

fn use_anticipations() {
    let trace = vec![
        nar_proc::SimpleSentence { name: name("a"), evi: 0, occT: 0 },
        nar_proc::SimpleSentence { name: name("b"), evi: 1, occT: 1 },
        nar_proc::SimpleSentence { name: name("c"), evi: 2, occT: 2 },
    ];
    let ants = vec![
        nar_proc::Anticipation { pred: name("c"), deadline: 3, eviId: 10 },
        nar_proc::Anticipation { pred: name("a"), deadline: 3, eviId: 11 },
        nar_proc::Anticipation { pred: name("x"), deadline: 5, eviId: 12 },
        nar_proc::Anticipation { pred: name("y"), deadline: 7, eviId: 13 },
    ];
    // window of two: c and b count as seen; at t = 5 the anticipation of x is due
    let (kept, violated) = nar_proc::anticipation_step(&ants, &trace, 2, 5);
    let keptIds: Vec<i64> = kept.iter().map(|a| a.eviId).collect();
    assert_eq!(keptIds, vec![13]);
    assert_eq!(violated, vec![11, 12]);
}

#[test]
fn enacting_a_decision() {
    let op = encodeOp(&vec![name("SELF")], &"^left".to_string());
    let sq = Term::Sequence(vec![Box::new(name("c")), Box::new(op.clone())]);
    let table = vec![0, 1, 2, 4, 8];
    let (picked, ant) = nar_proc::enact_decision(&sq, &name("g"), 42, Some(3), &table, 100, true).unwrap();
    assert_eq!(convTermToStr(&picked), "<{( SELF )} --> ^left>");
    let ant = ant.unwrap();
    assert_eq!((ant.deadline, ant.eviId), (104, 42));
    assert_eq!(convTermToStr(&ant.pred), "g");
    let (_picked, ant) = nar_proc::enact_decision(&sq, &name("g"), 42, None, &table, 100, false).unwrap();
    assert!(ant.is_none());
    // the second element is no op call: nothing is enacted
    let sq2 = Term::Sequence(vec![Box::new(name("c")), Box::new(name("d"))]);
    assert!(nar_proc::enact_decision(&sq2, &name("g"), 42, None, &table, 100, true).is_none());
}
