//! The edge-triggered hotkey matcher and its modifier expressions.
//!
//! A modifier expression is a conjunction of clauses, each clause a set of
//! alternative key codes; the clause holds when at least one alternative is
//! pressed, and the whole expression holds when every clause does. The
//! expression is written `NAME-NAME+NAME`: clauses joined by `+`, the
//! alternatives inside a clause joined by `-`. It is parsed and validated
//! once, when a binding is constructed, never on the poll path.
//!
//! The matcher consumes one snapshot of pressed keys per poll. The toggle
//! fires only on the poll where the toggle key is newly pressed and the
//! modifier expression holds on that same poll; holding the key does not
//! toggle again, and a press that fails the modifier check is consumed.

use vstd::prelude::*;

use crate::keys::key_code_from_name;
use crate::keys::key_code_of;
use crate::split::lemma_split_on_concat;
use crate::split::lemma_split_on_no_sep;
use crate::split::lemma_split_on_nonempty;
use crate::split::split_on;
use vstd::string::StrSliceExecFns;

verus! {

/// True when every alternative name in the list is a known key.
pub open spec fn all_alts_known(alts: Seq<Seq<char>>) -> bool {
    forall|j: int| 0 <= j < alts.len() ==> (#[trigger] key_code_of(alts[j])) is Some
}

/// A clause token maps to the codes of its `-`-separated alternatives,
/// or to `None` when one of the names is not a known key.
pub open spec fn clause_of(tok: Seq<char>) -> Option<Seq<u16>> {
    let alts = split_on(tok, '-');
    if all_alts_known(alts) {
        Some(Seq::new(alts.len(), |j: int| key_code_of(alts[j]).unwrap()))
    } else {
        None
    }
}

/// True when every clause token in the list parses.
pub open spec fn all_clauses_valid(toks: Seq<Seq<char>>) -> bool {
    forall|i: int| 0 <= i < toks.len() ==> (#[trigger] clause_of(toks[i])) is Some
}

/// What parsing a whole modifier expression yields: the empty text is the
/// empty expression; otherwise every `+`-separated token must be a valid
/// clause, and the clauses keep their order.
pub open spec fn spec_parse_expr(s: Seq<char>) -> Option<Seq<Seq<u16>>> {
    if s.len() == 0 {
        Some(Seq::empty())
    } else {
        let toks = split_on(s, '+');
        if all_clauses_valid(toks) {
            Some(Seq::new(toks.len(), |i: int| clause_of(toks[i]).unwrap()))
        } else {
            None
        }
    }
}

/// One clause holds when at least one of its alternatives is pressed.
pub open spec fn clause_sat(clause: Seq<u16>, pressed: Set<u16>) -> bool {
    exists|j: int| 0 <= j < clause.len() && pressed.contains(#[trigger] clause[j])
}

/// The whole expression holds when every clause does. The empty
/// expression is trivially satisfied.
pub open spec fn expr_sat(clauses: Seq<Seq<u16>>, pressed: Set<u16>) -> bool {
    forall|i: int| 0 <= i < clauses.len() ==> clause_sat(#[trigger] clauses[i], pressed)
}

/// The error reported when a modifier expression names an unknown key.
#[derive(Clone, Copy, Debug, PartialEq, Eq, Structural)]
pub struct InvalidKeyName;

/// A compiled modifier expression: the clauses, each a list of
/// alternative key codes.
pub struct ModifierExpression {
    clauses: Vec<Vec<u16>>,
}

impl View for ModifierExpression {
    type V = Seq<Seq<u16>>;

    closed spec fn view(&self) -> Seq<Seq<u16>> {
        Seq::new(self.clauses@.len(), |i: int| self.clauses@[i]@)
    }
}

/// True when `v` holds `x`; the executable side of `Seq::contains`.
fn vec_contains(v: &Vec<u16>, x: u16) -> (r: bool)
    ensures
        r == v@.contains(x),
{
    let mut i: usize = 0;
    while i < v.len()
        invariant
            0 <= i <= v@.len(),
            forall|k: int| 0 <= k < i ==> v@[k] != x,
        decreases v@.len() - i,
    {
        if v[i] == x {
            return true;
        }
        i += 1;
    }
    false
}

/// True when at least one alternative of `clause` is in `pressed`.
fn clause_satisfied(clause: &Vec<u16>, pressed: &Vec<u16>) -> (r: bool)
    ensures
        r == clause_sat(clause@, pressed@.to_set()),
{
    let mut j: usize = 0;
    while j < clause.len()
        invariant
            0 <= j <= clause@.len(),
            forall|k: int| 0 <= k < j ==> !pressed@.to_set().contains(#[trigger] clause@[k]),
        decreases clause@.len() - j,
    {
        if vec_contains(pressed, clause[j]) {
            return true;
        }
        j += 1;
    }
    false
}

/// Parses the `-`-separated alternatives of one clause token.
fn parse_clause(tok: &str) -> (r: Result<Vec<u16>, InvalidKeyName>)
    ensures
        match r {
            Ok(codes) => clause_of(tok@) == Some(codes@),
            Err(_) => clause_of(tok@) is None,
        },
{
    let n = tok.unicode_len();
    let ghost alts = split_on(tok@, '-');
    let mut codes: Vec<u16> = Vec::new();
    let ghost mut done: Seq<Seq<char>> = Seq::empty();
    let mut st: usize = 0;
    proof {
        assert(tok@.subrange(0, n as int) =~= tok@);
        assert(done + split_on(tok@, '-') =~= split_on(tok@, '-'));
    }
    loop
        invariant
            n == tok@.len(),
            0 <= st <= n,
            codes@.len() == done.len(),
            alts == split_on(tok@, '-'),
            alts == done + split_on(tok@.subrange(st as int, n as int), '-'),
            forall|k: int|
                0 <= k < done.len() ==> key_code_of(#[trigger] done[k]) == Some(codes@[k]),
        decreases n - st,
    {
        let mut e: usize = st;
        loop
            invariant
                n == tok@.len(),
                st <= e <= n,
                forall|k: int| st <= k < e ==> tok@[k] != '-',
            ensures
                st <= e <= n,
                forall|k: int| st <= k < e ==> tok@[k] != '-',
                e == n || tok@[e as int] == '-',
            decreases n - e,
        {
            if e == n {
                break;
            }
            if tok.get_char(e) == '-' {
                break;
            }
            e += 1;
        }
        let name = tok.substring_char(st, e);
        let ghost rest = tok@.subrange(st as int, n as int);
        proof {
            if e < n {
                assert(rest =~= name@ + seq!['-'] + tok@.subrange(e + 1, n as int));
                lemma_split_on_concat(name@, tok@.subrange(e + 1, n as int), '-');
                lemma_split_on_nonempty(tok@.subrange(e + 1, n as int), '-');
            } else {
                assert(rest =~= name@);
                lemma_split_on_no_sep(name@, '-');
            }
            assert(alts[done.len() as int] == name@);
        }
        match key_code_from_name(name) {
            None => {
                proof {
                    assert(0 <= done.len() < alts.len());
                    assert(key_code_of(alts[done.len() as int]) is None);
                    assert(!all_alts_known(alts));
                    assert(clause_of(tok@) is None);
                }
                return Err(InvalidKeyName);
            },
            Some(code) => {
                codes.push(code);
                let ghost prev_done = done;
                proof {
                    done = prev_done + seq![name@];
                    assert forall|k: int|
                        0 <= k < done.len() implies key_code_of(#[trigger] done[k]) == Some(
                        codes@[k],
                    ) by {
                        if k < prev_done.len() {
                            assert(done[k] == prev_done[k]);
                        } else {
                            assert(done[k] == name@);
                        }
                    }
                }
                if e == n {
                    proof {
                        assert(alts =~~= done);
                        assert forall|j: int|
                            0 <= j < alts.len() implies (#[trigger] key_code_of(
                            alts[j],
                        )) is Some by {
                            assert(key_code_of(done[j]) == Some(codes@[j]));
                        }
                        assert(all_alts_known(alts));
                        let mapped = Seq::new(
                            alts.len(),
                            |j: int| key_code_of(alts[j]).unwrap(),
                        );
                        assert(clause_of(tok@) == Some(mapped));
                        assert(mapped =~= codes@);
                    }
                    return Ok(codes);
                }
                st = e + 1;
            },
        }
    }
}

impl ModifierExpression {
    /// The expression with no clauses, satisfied by every snapshot.
    pub fn empty() -> (r: ModifierExpression)
        ensures
            r@ == Seq::<Seq<u16>>::empty(),
    {
        let r = ModifierExpression { clauses: Vec::new() };
        proof {
            assert(r@ =~= Seq::<Seq<u16>>::empty());
        }
        r
    }

    /// Parses and validates a whole modifier expression, resolving every
    /// key name through the key table; this happens once, at construction
    /// or reconfiguration, so polling itself can never fail.
    pub fn parse(s: &str) -> (r: Result<ModifierExpression, InvalidKeyName>)
        ensures
            match r {
                Ok(expr) => spec_parse_expr(s@) == Some(expr@),
                Err(_) => spec_parse_expr(s@) is None,
            },
    {
        let n = s.unicode_len();
        if n == 0 {
            return Ok(ModifierExpression::empty());
        }
        let ghost toks = split_on(s@, '+');
        let mut clauses: Vec<Vec<u16>> = Vec::new();
        let ghost mut done: Seq<Seq<char>> = Seq::empty();
        let mut st: usize = 0;
        proof {
            assert(s@.subrange(0, n as int) =~= s@);
            assert(done + split_on(s@, '+') =~= split_on(s@, '+'));
        }
        loop
            invariant
                n == s@.len(),
                n > 0,
                0 <= st <= n,
                clauses@.len() == done.len(),
                toks == split_on(s@, '+'),
                toks == done + split_on(s@.subrange(st as int, n as int), '+'),
                forall|k: int|
                    0 <= k < done.len() ==> clause_of(#[trigger] done[k]) == Some(clauses@[k]@),
            decreases n - st,
        {
            let mut e: usize = st;
            loop
                invariant
                    n == s@.len(),
                    st <= e <= n,
                    forall|k: int| st <= k < e ==> s@[k] != '+',
                ensures
                    st <= e <= n,
                    forall|k: int| st <= k < e ==> s@[k] != '+',
                    e == n || s@[e as int] == '+',
                decreases n - e,
            {
                if e == n {
                    break;
                }
                if s.get_char(e) == '+' {
                    break;
                }
                e += 1;
            }
            let tok = s.substring_char(st, e);
            let ghost rest = s@.subrange(st as int, n as int);
            proof {
                if e < n {
                    assert(rest =~= tok@ + seq!['+'] + s@.subrange(e + 1, n as int));
                    lemma_split_on_concat(tok@, s@.subrange(e + 1, n as int), '+');
                    lemma_split_on_nonempty(s@.subrange(e + 1, n as int), '+');
                } else {
                    assert(rest =~= tok@);
                    lemma_split_on_no_sep(tok@, '+');
                }
                assert(toks[done.len() as int] == tok@);
            }
            match parse_clause(tok) {
                Err(err) => {
                    proof {
                        assert(0 <= done.len() < toks.len());
                        assert(clause_of(toks[done.len() as int]) is None);
                        assert(!all_clauses_valid(toks));
                        assert(spec_parse_expr(s@) is None);
                    }
                    return Err(err);
                },
                Ok(codes) => {
                    clauses.push(codes);
                    let ghost prev_done = done;
                    proof {
                        done = prev_done + seq![tok@];
                        assert forall|k: int|
                            0 <= k < done.len() implies clause_of(#[trigger] done[k]) == Some(
                            clauses@[k]@,
                        ) by {
                            if k < prev_done.len() {
                                assert(done[k] == prev_done[k]);
                            } else {
                                assert(done[k] == tok@);
                            }
                        }
                    }
                    if e == n {
                        let r = ModifierExpression { clauses };
                        proof {
                            assert(toks =~~= done);
                            assert forall|i: int|
                                0 <= i < toks.len() implies (#[trigger] clause_of(
                                toks[i],
                            )) is Some by {
                                assert(clause_of(done[i]) == Some(r.clauses@[i]@));
                            }
                            assert(all_clauses_valid(toks));
                            let mapped = Seq::new(
                                toks.len(),
                                |i: int| clause_of(toks[i]).unwrap(),
                            );
                            assert(spec_parse_expr(s@) == Some(mapped));
                            assert(mapped =~= r@);
                        }
                        return Ok(r);
                    }
                    st = e + 1;
                },
            }
        }
    }

    /// True when the expression holds against the given snapshot of
    /// pressed keys.
    pub fn satisfied(&self, pressed: &Vec<u16>) -> (r: bool)
        ensures
            r == expr_sat(self@, pressed@.to_set()),
    {
        let mut i: usize = 0;
        while i < self.clauses.len()
            invariant
                0 <= i <= self.clauses@.len(),
                forall|k: int| 0 <= k < i ==> clause_sat(#[trigger] self@[k], pressed@.to_set()),
            decreases self.clauses@.len() - i,
        {
            proof {
                assert(self@[i as int] == self.clauses@[i as int]@);
            }
            if !clause_satisfied(&self.clauses[i], pressed) {
                proof {
                    assert(!clause_sat(self@[i as int], pressed@.to_set()));
                }
                return false;
            }
            i += 1;
        }
        true
    }

    /// The compiled clauses, each a list of alternative key codes.
    pub fn clauses(&self) -> (r: &Vec<Vec<u16>>)
        ensures
            r@.len() == self@.len(),
            forall|i: int| 0 <= i < r@.len() ==> #[trigger] r@[i]@ == self@[i],
    {
        &self.clauses
    }
}

/// The matcher's abstract state: the binding and what the last poll saw.
#[verifier::ext_equal]
pub struct HotKeyView {
    /// The code of the toggle key.
    pub keybind: u16,
    /// The compiled modifier expression.
    pub clauses: Seq<Seq<u16>>,
    /// The set of keys the previous poll reported pressed.
    pub lastkeys: Set<u16>,
    /// Whether the clicker is currently toggled on.
    pub active: bool,
}

/// One poll of the matcher: the toggle fires exactly when the toggle key
/// is pressed now, was not pressed at the previous poll, and the modifier
/// expression holds against the same snapshot. Whatever happens, the
/// snapshot becomes the new previous poll, so a press that fails the
/// modifier check is consumed.
pub open spec fn spec_poll(m: HotKeyView, pressed: Set<u16>) -> HotKeyView {
    let toggle = pressed.contains(m.keybind) && !m.lastkeys.contains(m.keybind) && expr_sat(
        m.clauses,
        pressed,
    );
    HotKeyView {
        lastkeys: pressed,
        active: if toggle {
            !m.active
        } else {
            m.active
        },
        ..m
    }
}

/// The edge-triggered hotkey matcher: a toggle key, a compiled modifier
/// expression, the previous poll's snapshot, and the active flag.
pub struct HotKey {
    keybind: u16,
    modifiers: ModifierExpression,
    lastkeys: Vec<u16>,
    active: bool,
}

impl View for HotKey {
    type V = HotKeyView;

    closed spec fn view(&self) -> HotKeyView {
        HotKeyView {
            keybind: self.keybind,
            clauses: self.modifiers@,
            lastkeys: self.lastkeys@.to_set(),
            active: self.active,
        }
    }
}

impl HotKey {
    /// A fresh matcher: inactive, with an empty previous snapshot.
    pub fn new(keybind: u16, modifiers: ModifierExpression) -> (r: HotKey)
        ensures
            r@ == (HotKeyView {
                keybind,
                clauses: modifiers@,
                lastkeys: Set::<u16>::empty(),
                active: false,
            }),
    {
        let r = HotKey { keybind, modifiers, lastkeys: Vec::new(), active: false };
        proof {
            assert(r.lastkeys@.to_set() =~= Set::<u16>::empty());
            assert(r@ =~~= (HotKeyView {
                keybind,
                clauses: r.modifiers@,
                lastkeys: Set::<u16>::empty(),
                active: false,
            }));
        }
        r
    }

    /// One poll: consumes a fresh snapshot of pressed keys and returns the
    /// post-poll active state, exactly as [`spec_poll`] states.
    pub fn update(&mut self, pressed: Vec<u16>) -> (active: bool)
        ensures
            final(self)@ == spec_poll(old(self)@, pressed@.to_set()),
            active == final(self)@.active,
    {
        let edge = vec_contains(&pressed, self.keybind) && !vec_contains(
            &self.lastkeys,
            self.keybind,
        );
        if edge && self.modifiers.satisfied(&pressed) {
            self.active = !self.active;
        }
        self.lastkeys = pressed;
        proof {
            assert(self@ =~~= spec_poll(old(self)@, pressed@.to_set()));
        }
        self.active
    }

    /// Rebinds the toggle key, leaving everything else as it is.
    pub fn set_keybind(&mut self, keybind: u16)
        ensures
            final(self)@ == (HotKeyView { keybind, ..old(self)@ }),
    {
        self.keybind = keybind;
        proof {
            assert(self@ =~~= (HotKeyView { keybind, ..old(self)@ }));
        }
    }

    /// The code of the toggle key.
    pub fn keybind(&self) -> (r: u16)
        ensures
            r == self@.keybind,
    {
        self.keybind
    }

    /// Whether the clicker is currently toggled on.
    pub fn active(&self) -> (r: bool)
        ensures
            r == self@.active,
    {
        self.active
    }
}

/// The active state changes only on a poll where the toggle key is newly
/// pressed and every modifier clause is satisfied on that same poll.
pub proof fn lemma_toggle_needs_edge(m: HotKeyView, pressed: Set<u16>)
    ensures
        spec_poll(m, pressed).active != m.active ==> pressed.contains(m.keybind)
            && !m.lastkeys.contains(m.keybind) && expr_sat(m.clauses, pressed),
{
}

/// Holding the toggle key across polls never toggles again: once a poll
/// has seen the key down, the next poll cannot fire, whatever it sees.
pub proof fn lemma_no_retoggle_while_held(m: HotKeyView, first: Set<u16>, second: Set<u16>)
    requires
        first.contains(m.keybind),
    ensures
        spec_poll(spec_poll(m, first), second).active == spec_poll(m, first).active,
{
}

/// Repeating an identical snapshot twice in a row never toggles on the
/// second poll.
pub proof fn lemma_no_double_toggle(m: HotKeyView, pressed: Set<u16>)
    ensures
        spec_poll(spec_poll(m, pressed), pressed).active == spec_poll(m, pressed).active,
{
}

/// The matcher after a whole sequence of polls, oldest first.
pub open spec fn spec_poll_seq(m: HotKeyView, polls: Seq<Set<u16>>) -> HotKeyView
    decreases polls.len(),
{
    if polls.len() == 0 {
        m
    } else {
        spec_poll_seq(spec_poll(m, polls[0]), polls.drop_first())
    }
}

/// However long the toggle key is held, the active state never moves:
/// once a poll has seen the key down, any run of polls that all still
/// see it down leaves the state exactly where it was.
pub proof fn lemma_holding_never_retoggles(m: HotKeyView, polls: Seq<Set<u16>>)
    requires
        m.lastkeys.contains(m.keybind),
        forall|i: int| 0 <= i < polls.len() ==> #[trigger] polls[i].contains(m.keybind),
    ensures
        spec_poll_seq(m, polls).active == m.active,
    decreases polls.len(),
{
    if polls.len() > 0 {
        let next = spec_poll(m, polls[0]);
        assert(next.lastkeys == polls[0]);
        assert(forall|i: int|
            0 <= i < polls.drop_first().len() ==> #[trigger] polls.drop_first()[i].contains(
                next.keybind,
            ));
        lemma_holding_never_retoggles(next, polls.drop_first());
    }
}

/// The empty expression parses to no clauses and is satisfied by every
/// snapshot.
pub proof fn lemma_empty_expression_satisfied(pressed: Set<u16>)
    ensures
        spec_parse_expr(Seq::<char>::empty()) == Some(Seq::<Seq<u16>>::empty()),
        expr_sat(Seq::<Seq<u16>>::empty(), pressed),
{
}

/// The expression `A-B+C` is satisfied at a poll exactly when `A` or `B`
/// is pressed and `C` is pressed; the names may be any known keys that
/// hold no separator characters.
pub proof fn lemma_modifier_expression_semantics(
    a: Seq<char>,
    b: Seq<char>,
    c: Seq<char>,
    pressed: Set<u16>,
)
    requires
        !a.contains('+') && !a.contains('-'),
        !b.contains('+') && !b.contains('-'),
        !c.contains('+') && !c.contains('-'),
        key_code_of(a) is Some,
        key_code_of(b) is Some,
        key_code_of(c) is Some,
    ensures
        spec_parse_expr(a + seq!['-'] + b + seq!['+'] + c) == Some(
            seq![
                seq![key_code_of(a).unwrap(), key_code_of(b).unwrap()],
                seq![key_code_of(c).unwrap()],
            ],
        ),
        expr_sat(
            seq![
                seq![key_code_of(a).unwrap(), key_code_of(b).unwrap()],
                seq![key_code_of(c).unwrap()],
            ],
            pressed,
        ) <==> ((pressed.contains(key_code_of(a).unwrap()) || pressed.contains(
            key_code_of(b).unwrap(),
        )) && pressed.contains(key_code_of(c).unwrap())),
{
    let ka = key_code_of(a).unwrap();
    let kb = key_code_of(b).unwrap();
    let kc = key_code_of(c).unwrap();
    let s = a + seq!['-'] + b + seq!['+'] + c;
    let ab = a + seq!['-'] + b;
    assert(!ab.contains('+')) by {
        if ab.contains('+') {
            let i = choose|i: int| 0 <= i < ab.len() && ab[i] == '+';
            if i < a.len() {
                assert(a[i] == '+');
            } else if i > a.len() {
                assert(b[i - a.len() - 1] == '+');
            }
        }
    }
    assert(s =~= ab + seq!['+'] + c);
    lemma_split_on_concat(ab, c, '+');
    lemma_split_on_no_sep(c, '+');
    assert(split_on(s, '+') =~~= seq![ab, c]);
    lemma_split_on_concat(a, b, '-');
    lemma_split_on_no_sep(b, '-');
    assert(split_on(ab, '-') =~~= seq![a, b]);
    lemma_split_on_no_sep(c, '-');
    assert(all_alts_known(seq![a, b])) by {
        assert(seq![a, b][0] == a && seq![a, b][1] == b);
    }
    assert(all_alts_known(seq![c])) by {
        assert(seq![c][0] == c);
    }
    assert(clause_of(ab) == Some(seq![ka, kb])) by {
        assert(Seq::new(2, |j: int| key_code_of(seq![a, b][j]).unwrap()) =~= seq![ka, kb]);
    }
    assert(clause_of(c) == Some(seq![kc])) by {
        assert(Seq::new(1, |j: int| key_code_of(seq![c][j]).unwrap()) =~= seq![kc]);
    }
    assert(all_clauses_valid(seq![ab, c])) by {
        assert(seq![ab, c][0] == ab && seq![ab, c][1] == c);
    }
    assert(s.len() > 0);
    assert(spec_parse_expr(s) == Some(seq![seq![ka, kb], seq![kc]])) by {
        assert(Seq::new(2, |i: int| clause_of(seq![ab, c][i]).unwrap()) =~= seq![
            seq![ka, kb],
            seq![kc],
        ]);
    }
    let e = seq![seq![ka, kb], seq![kc]];
    assert(clause_sat(e[0], pressed) <==> (pressed.contains(ka) || pressed.contains(kb))) by {
        assert(e[0][0] == ka && e[0][1] == kb);
        if pressed.contains(ka) {
            assert(clause_sat(e[0], pressed));
        }
        if pressed.contains(kb) {
            assert(clause_sat(e[0], pressed));
        }
    }
    assert(clause_sat(e[1], pressed) <==> pressed.contains(kc)) by {
        assert(e[1][0] == kc);
        if pressed.contains(kc) {
            assert(clause_sat(e[1], pressed));
        }
    }
    if clause_sat(e[0], pressed) && clause_sat(e[1], pressed) {
        assert forall|i: int| 0 <= i < e.len() implies clause_sat(#[trigger] e[i], pressed) by {
            if i == 0 {
            } else {
                assert(e[i] == e[1]);
            }
        }
        assert(expr_sat(e, pressed));
    }
    if expr_sat(e, pressed) {
        assert(clause_sat(e[0], pressed) && clause_sat(e[1], pressed));
    }
}

} // verus!
