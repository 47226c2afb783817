//! The lock that serialises content changes across invocations.
//!
//! The lock is one remote cell: the body of an issue, which holds the
//! token of its holder in decimal, or anything else when the lock is free.
//! The platform offers no compare-and-swap, so an invocation claims a free
//! lock by writing its token, waits for racing writers to settle, and reads
//! again: the lock is its own only if its token is still there. Whoever
//! finds another token waits, with a random jitter, and starts over. The
//! lock is never released here: an outside rebuild job frees it.
use vstd::prelude::*;
use crate::text::chars_of;

verus! {

/// How long a claimant waits before it reads its claim back, and the
/// fixed part of the wait of an invocation that found the lock taken.
pub const SETTLE_MS: u64 = 10000;

/// The random part of the wait of an invocation that found the lock
/// taken is below this bound.
pub const JITTER_BOUND_MS: u64 = 10000;

/// Where an invocation stands in acquiring the lock.
#[derive(PartialEq, Eq, Structural, Debug, Clone, Copy)]
pub enum LockPhase {
    /// Reading the holder, to decide what to do.
    Reading,
    /// Writing its own token into the free cell.
    Claiming,
    /// Waiting for racing writers to settle after it saw its own token.
    Settling,
    /// Reading the holder again after the wait.
    Rechecking,
    /// Waiting after it found another holder.
    BackingOff,
    /// The lock is held.
    Acquired,
}

/// What the caller is to do next against the lock cell.
#[derive(PartialEq, Eq, Structural, Debug, Clone, Copy)]
pub enum LockAction {
    /// Read the cell and report `LockEvent::Holder`.
    ReadHolder,
    /// Write this token into the cell and report `LockEvent::Written`,
    /// whether or not the write went through.
    WriteHolder(u64),
    /// Sleep this many milliseconds and report `LockEvent::Slept`.
    Sleep(u64),
    /// Nothing: the lock is held.
    Done,
}

/// What the caller observed when it did the last action.
#[derive(PartialEq, Eq, Structural, Debug, Clone, Copy)]
pub enum LockEvent {
    /// The holder that the cell named, if any.
    Holder(Option<u64>),
    /// The write was attempted.
    Written,
    /// The sleep is over.
    Slept,
}

/// The phase that follows `phase` on `event`; an event that the phase does
/// not wait for leaves it as it is.
pub open spec fn next_phase(phase: LockPhase, token: u64, event: LockEvent) -> LockPhase {
    match (phase, event) {
        (LockPhase::Reading, LockEvent::Holder(None)) => LockPhase::Claiming,
        (LockPhase::Reading, LockEvent::Holder(Some(h))) => if h == token {
            LockPhase::Settling
        } else {
            LockPhase::BackingOff
        },
        (LockPhase::Claiming, LockEvent::Written) => LockPhase::Reading,
        (LockPhase::Settling, LockEvent::Slept) => LockPhase::Rechecking,
        (LockPhase::Rechecking, LockEvent::Holder(h)) => if h == Some(token) {
            LockPhase::Acquired
        } else {
            LockPhase::Reading
        },
        (LockPhase::BackingOff, LockEvent::Slept) => LockPhase::Reading,
        _ => phase,
    }
}

/// The action that a phase asks for; `jitter` is the random part of a
/// back-off.
pub open spec fn action_for(phase: LockPhase, token: u64, jitter: u64) -> LockAction {
    match phase {
        LockPhase::Reading => LockAction::ReadHolder,
        LockPhase::Claiming => LockAction::WriteHolder(token),
        LockPhase::Settling => LockAction::Sleep(SETTLE_MS),
        LockPhase::Rechecking => LockAction::ReadHolder,
        LockPhase::BackingOff => LockAction::Sleep((SETTLE_MS + jitter) as u64),
        LockPhase::Acquired => LockAction::Done,
    }
}

/// One invocation's progress in acquiring the lock under its token.
pub struct LockAcquirer {
    pub token: u64,
    pub phase: LockPhase,
}

/// Relies on `rand::Rng::gen_range` over `rand::rngs::OsRng`, which returns
/// a value of the half-open range it is given (and panics only on an empty
/// one).
#[verifier::external_body]
fn random_jitter_ms() -> (r: u64)
    ensures
        r < JITTER_BOUND_MS,
{
    rand::Rng::gen_range(&mut rand::rngs::OsRng, 0..JITTER_BOUND_MS)
}

impl LockAcquirer {
    /// Starts acquiring the lock under `token`: the first action reads the
    /// holder.
    pub fn new(token: u64) -> (r: (LockAcquirer, LockAction))
        ensures
            r.0.token == token,
            r.0.phase == LockPhase::Reading,
            r.1 == LockAction::ReadHolder,
    {
        (LockAcquirer { token, phase: LockPhase::Reading }, LockAction::ReadHolder)
    }

    /// Takes the event that the last action produced and returns the next
    /// action, with `jitter_ms` as the random part of a back-off.
    pub fn step_with_jitter(&mut self, event: LockEvent, jitter_ms: u64) -> (r: LockAction)
        requires
            jitter_ms < JITTER_BOUND_MS,
        ensures
            final(self).token == old(self).token,
            final(self).phase == next_phase(old(self).phase, old(self).token, event),
            r == action_for(final(self).phase, old(self).token, jitter_ms),
    {
        let phase = match (self.phase, event) {
            (LockPhase::Reading, LockEvent::Holder(None)) => LockPhase::Claiming,
            (LockPhase::Reading, LockEvent::Holder(Some(h))) => if h == self.token {
                LockPhase::Settling
            } else {
                LockPhase::BackingOff
            },
            (LockPhase::Claiming, LockEvent::Written) => LockPhase::Reading,
            (LockPhase::Settling, LockEvent::Slept) => LockPhase::Rechecking,
            (LockPhase::Rechecking, LockEvent::Holder(h)) => match h {
                Some(x) => if x == self.token {
                    LockPhase::Acquired
                } else {
                    LockPhase::Reading
                },
                None => LockPhase::Reading,
            },
            (LockPhase::BackingOff, LockEvent::Slept) => LockPhase::Reading,
            (p, _) => p,
        };
        self.phase = phase;
        match phase {
            LockPhase::Reading => LockAction::ReadHolder,
            LockPhase::Claiming => LockAction::WriteHolder(self.token),
            LockPhase::Settling => LockAction::Sleep(SETTLE_MS),
            LockPhase::Rechecking => LockAction::ReadHolder,
            LockPhase::BackingOff => LockAction::Sleep(SETTLE_MS + jitter_ms),
            LockPhase::Acquired => LockAction::Done,
        }
    }

    /// Takes the event that the last action produced and returns the next
    /// action; a back-off waits `SETTLE_MS` plus a random jitter.
    pub fn step(&mut self, event: LockEvent) -> (r: LockAction)
        ensures
            final(self).token == old(self).token,
            final(self).phase == next_phase(old(self).phase, old(self).token, event),
            exists|j: u64| j < JITTER_BOUND_MS && r == action_for(final(self).phase, old(self).token, j),
    {
        let jitter = random_jitter_ms();
        self.step_with_jitter(event, jitter)
    }

    pub fn is_acquired(&self) -> (r: bool)
        ensures
            r == (self.phase == LockPhase::Acquired),
    {
        match self.phase {
            LockPhase::Acquired => true,
            _ => false,
        }
    }
}

} // verus!

verus! {

pub open spec fn is_digit(c: char) -> bool {
    '0' <= c && c <= '9'
}

pub open spec fn digit_value(c: char) -> int {
    (c as u32) - ('0' as u32)
}

pub open spec fn digit_char(d: int) -> char {
    ((d + 48) as u32) as char
}

/// The number that a string of decimal digits writes.
pub open spec fn digits_value(s: Seq<char>) -> int
    decreases s.len(),
{
    if s.len() == 0 {
        0
    } else {
        10 * digits_value(s.drop_last()) + digit_value(s.last())
    }
}

pub open spec fn all_digits(s: Seq<char>) -> bool {
    forall|i: int| 0 <= i < s.len() ==> is_digit(#[trigger] s[i])
}

/// The digits of a number, after an optional `+`.
pub open spec fn unsigned_part(s: Seq<char>) -> Seq<char> {
    if s.len() > 0 && s[0] == '+' {
        s.drop_first()
    } else {
        s
    }
}

/// The holder that a lock cell's text names: a decimal token, with an
/// optional `+`, that fits in 64 bits. Any other text names none.
pub open spec fn holder_spec(body: Seq<char>) -> Option<u64> {
    let d = unsigned_part(body);
    if d.len() > 0 && all_digits(d) && digits_value(d) <= u64::MAX {
        Some(digits_value(d) as u64)
    } else {
        None
    }
}

proof fn lemma_digits_value_grows(s: Seq<char>, i: int)
    requires
        0 <= i <= s.len(),
        all_digits(s),
    ensures
        digits_value(s.subrange(0, i)) <= digits_value(s),
        0 <= digits_value(s.subrange(0, i)),
    decreases s.len() - i,
{
    if i < s.len() {
        lemma_digits_value_grows(s, i + 1);
        let p = s.subrange(0, i + 1);
        assert(p.drop_last() =~= s.subrange(0, i));
        assert(is_digit(s[i]));
    } else {
        assert(s.subrange(0, i) =~= s);
        lemma_digits_value_nonneg(s);
    }
}

proof fn lemma_digits_value_nonneg(s: Seq<char>)
    requires
        all_digits(s),
    ensures
        digits_value(s) >= 0,
    decreases s.len(),
{
    if s.len() > 0 {
        assert(is_digit(s.last()));
        lemma_digits_value_nonneg(s.drop_last());
    }
}

/// The holder that the text of the lock cell names.
pub fn parse_holder(body: &str) -> (r: Option<u64>)
    ensures
        r == holder_spec(body@),
{
    let v = chars_of(body);
    let start: usize = if v.len() > 0 && v[0] == '+' {
        1
    } else {
        0
    };
    let ghost d = unsigned_part(v@);
    assert(d =~= v@.subrange(start as int, v@.len() as int));
    if start == v.len() {
        return None;
    }
    let mut acc: u64 = 0;
    let mut i = start;
    while i < v.len()
        invariant
            start <= i <= v.len(),
            v@ == body@,
            d == unsigned_part(body@),
            d == v@.subrange(start as int, v@.len() as int),
            acc == digits_value(d.subrange(0, i - start)),
            all_digits(d.subrange(0, i - start)),
        decreases v.len() - i,
    {
        let c = v[i];
        let ghost p = d.subrange(0, i - start + 1);
        assert(p.drop_last() =~= d.subrange(0, i - start));
        assert(p.last() == c);
        if !('0' <= c && c <= '9') {
            assert(!is_digit(d[i - start]));
            return None;
        }
        let dv = (c as u32 - '0' as u32) as u64;
        assert(digits_value(p) == 10 * acc + dv);
        if acc > (u64::MAX - dv) / 10 {
            proof {
                let m = (u64::MAX - dv) as int;
                assert(acc > m / 10 ==> 10 * acc + dv > u64::MAX) by (nonlinear_arith)
                    requires
                        m == u64::MAX - dv,
                        0 <= dv <= 9,
                ;
                assert forall|k: int| 0 <= k < p.len() implies is_digit(#[trigger] p[k]) by {
                    if k < p.len() - 1 {
                        assert(p[k] == d.subrange(0, i - start)[k]);
                    }
                }
                if all_digits(d) {
                    lemma_digits_value_grows(d, i - start + 1);
                }
            }
            return None;
        }
        proof {
            let m = (u64::MAX - dv) as int;
            assert(acc <= m / 10 ==> 10 * acc + dv <= u64::MAX) by (nonlinear_arith)
                requires
                    m == u64::MAX - dv,
                    0 <= dv <= 9,
            ;
            assert forall|k: int| 0 <= k < p.len() implies is_digit(#[trigger] p[k]) by {
                if k < p.len() - 1 {
                    assert(p[k] == d.subrange(0, i - start)[k]);
                }
            }
        }
        acc = acc * 10 + dv;
        i = i + 1;
    }
    assert(d.subrange(0, d.len() as int) =~= d);
    Some(acc)
}

/// The decimal digits of `n`.
pub open spec fn decimal(n: nat) -> Seq<char>
    decreases n,
{
    if n < 10 {
        seq![digit_char(n as int)]
    } else {
        decimal(n / 10).push(digit_char((n % 10) as int))
    }
}

/// The text that names `token` as the holder of the lock.
pub fn lock_body(token: u64) -> (r: String)
    ensures
        r@ == decimal(token as nat),
{
    let mut digits: Vec<char> = Vec::new();
    let mut n = token;
    let ghost mut suffix: Seq<char> = Seq::empty();
    while n >= 10
        invariant
            decimal(token as nat) == decimal(n as nat) + suffix,
            digits@.len() == suffix.len(),
            forall|k: int| 0 <= k < suffix.len() ==> digits@[k] == suffix[suffix.len() - 1 - k],
        decreases n,
    {
        let c = ((n % 10) as u8 + 48) as char;
        proof {
            assert(decimal(n as nat) == decimal((n / 10) as nat).push(digit_char((n % 10) as int)));
            assert(decimal((n / 10) as nat).push(c) + suffix =~= decimal((n / 10) as nat) + (seq![c]
                + suffix));
            suffix = seq![c] + suffix;
        }
        digits.push(c);
        n = n / 10;
    }
    let mut out = String::new();
    out.push(((n as u8) + 48) as char);
    assert(out@ =~= decimal(n as nat));
    let mut k = digits.len();
    while k > 0
        invariant
            k <= digits@.len(),
            digits@.len() == suffix.len(),
            forall|j: int| 0 <= j < suffix.len() ==> digits@[j] == suffix[suffix.len() - 1 - j],
            out@ == decimal(n as nat) + suffix.subrange(0, suffix.len() - k),
        decreases k,
    {
        k = k - 1;
        out.push(digits[k]);
        assert(suffix.subrange(0, suffix.len() - k) =~= suffix.subrange(0, suffix.len() - k - 1).push(
            suffix[suffix.len() - 1 - k],
        ));
    }
    assert(suffix.subrange(0, suffix.len() as int) =~= suffix);
    out
}

proof fn lemma_decimal_digits(n: nat)
    ensures
        decimal(n).len() > 0,
        all_digits(decimal(n)),
        decimal(n)[0] != '+',
        digits_value(decimal(n)) == n,
    decreases n,
{
    if n >= 10 {
        lemma_decimal_digits(n / 10);
        let p = decimal(n / 10);
        assert(decimal(n).drop_last() =~= p);
        assert(decimal(n)[0] == p[0]);
        assert(digit_value(digit_char((n % 10) as int)) == n % 10);
        assert(n == 10 * (n / 10) + n % 10);
        assert(decimal(n).last() == digit_char((n % 10) as int));
        assert(digits_value(decimal(n)) == 10 * digits_value(p) + digit_value(decimal(n).last()));
    } else {
        assert(decimal(n).last() == digit_char(n as int));
        assert(digits_value(Seq::<char>::empty()) == 0);
        assert(digits_value(decimal(n)) == 10 * digits_value(decimal(n).drop_last()) + digit_value(
            decimal(n).last(),
        ));
        assert(decimal(n).drop_last() =~= Seq::<char>::empty());
        assert(digit_value(digit_char(n as int)) == n);
    }
}

/// What is written as the holder reads back as the same token.
pub proof fn lemma_lock_body_round_trip(token: u64)
    ensures
        holder_spec(decimal(token as nat)) == Some(token),
{
    lemma_decimal_digits(token as nat);
}

} // verus!

verus! {

/// A lock cell held in memory, which behaves as the remote one does when
/// its reads and writes go through.
pub struct LockCell {
    pub holder: Option<u64>,
}

/// What doing `action` against a cell that holds `cell` leaves in the cell,
/// and what it reports.
pub open spec fn perform_spec(cell: Option<u64>, action: LockAction) -> (Option<u64>, LockEvent) {
    match action {
        LockAction::ReadHolder => (cell, LockEvent::Holder(cell)),
        LockAction::WriteHolder(t) => (Some(t), LockEvent::Written),
        LockAction::Sleep(_) => (cell, LockEvent::Slept),
        LockAction::Done => (cell, LockEvent::Slept),
    }
}

impl LockCell {
    /// A free cell.
    pub fn new() -> (r: LockCell)
        ensures
            r.holder is None,
    {
        LockCell { holder: None }
    }

    pub fn read(&self) -> (r: Option<u64>)
        ensures
            r == self.holder,
    {
        self.holder
    }

    pub fn write(&mut self, token: u64)
        ensures
            final(self).holder == Some(token),
    {
        self.holder = Some(token);
    }

    /// Frees the lock. Acquiring never calls this: the job that rebuilds
    /// the site frees the lock.
    pub fn release(&mut self)
        ensures
            final(self).holder is None,
    {
        self.holder = None;
    }

    /// Does `action` against this cell; a sleep leaves it as it is.
    pub fn perform(&mut self, action: LockAction) -> (r: LockEvent)
        ensures
            (final(self).holder, r) == perform_spec(old(self).holder, action),
    {
        match action {
            LockAction::ReadHolder => LockEvent::Holder(self.read()),
            LockAction::WriteHolder(t) => {
                self.write(t);
                LockEvent::Written
            },
            LockAction::Sleep(_) => LockEvent::Slept,
            LockAction::Done => LockEvent::Slept,
        }
    }
}

/// One step of an invocation in `phase` against a cell that holds `cell`:
/// it does the phase's action and takes what the action reports.
pub open spec fn advance(phase: LockPhase, token: u64, cell: Option<u64>) -> (LockPhase, Option<u64>) {
    let (c, ev) = perform_spec(cell, action_for(phase, token, 0));
    (next_phase(phase, token, ev), c)
}

/// `n` steps of an invocation that no other invocation disturbs.
pub open spec fn run_alone(phase: LockPhase, token: u64, cell: Option<u64>, n: nat) -> (LockPhase, Option<u64>)
    decreases n,
{
    if n == 0 {
        (phase, cell)
    } else {
        let (p, c) = run_alone(phase, token, cell, (n - 1) as nat);
        advance(p, token, c)
    }
}

/// An invocation alone with a free cell holds the lock after one claim and
/// one confirmed recheck: five steps (read, write, read, wait, read), and
/// it holds it from then on.
pub proof fn lemma_uncontended_acquire(token: u64, n: nat)
    requires
        n >= 5,
    ensures
        run_alone(LockPhase::Reading, token, None, 4).0 != LockPhase::Acquired,
        run_alone(LockPhase::Reading, token, None, 5) == (LockPhase::Acquired, Some(token)),
        run_alone(LockPhase::Reading, token, None, n) == (LockPhase::Acquired, Some(token)),
    decreases n,
{
    assert(run_alone(LockPhase::Reading, token, None, 0) == (LockPhase::Reading, None::<u64>));
    assert(run_alone(LockPhase::Reading, token, None, 1) == (LockPhase::Claiming, None::<u64>));
    assert(run_alone(LockPhase::Reading, token, None, 2) == (LockPhase::Reading, Some(token)));
    assert(run_alone(LockPhase::Reading, token, None, 3) == (LockPhase::Settling, Some(token)));
    assert(run_alone(LockPhase::Reading, token, None, 4) == (LockPhase::Rechecking, Some(token)));
    assert(run_alone(LockPhase::Reading, token, None, 5) == (LockPhase::Acquired, Some(token)));
    if n > 5 {
        lemma_uncontended_acquire(token, (n - 1) as nat);
    }
}

/// Two invocations, `a` and `b`, and the cell they share.
pub struct Race {
    pub cell: Option<u64>,
    pub a: LockPhase,
    pub b: LockPhase,
}

/// One step of `a` (when `a_moves`) or of `b`.
pub open spec fn race_step(s: Race, ta: u64, tb: u64, a_moves: bool) -> Race {
    if a_moves {
        let (p, c) = advance(s.a, ta, s.cell);
        Race { cell: c, a: p, b: s.b }
    } else {
        let (p, c) = advance(s.b, tb, s.cell);
        Race { cell: c, a: s.a, b: p }
    }
}

/// The steps of `schedule`, in order.
pub open spec fn race_run(s: Race, ta: u64, tb: u64, schedule: Seq<bool>) -> Race
    decreases schedule.len(),
{
    if schedule.len() == 0 {
        s
    } else {
        race_step(race_run(s, ta, tb, schedule.drop_last()), ta, tb, schedule.last())
    }
}

/// How many steps of `schedule` are steps of `b`.
pub open spec fn steps_of_b(schedule: Seq<bool>) -> nat
    decreases schedule.len(),
{
    if schedule.len() == 0 {
        0
    } else {
        steps_of_b(schedule.drop_last()) + if schedule.last() {
            0nat
        } else {
            1nat
        }
    }
}

/// How far an invocation whose token is in the cell has come.
pub open spec fn progress(p: LockPhase) -> nat {
    match p {
        LockPhase::Settling => 1,
        LockPhase::Rechecking => 2,
        LockPhase::Acquired => 3,
        _ => 0,
    }
}

pub open spec fn is_loser_phase(p: LockPhase) -> bool {
    p == LockPhase::Reading || p == LockPhase::Settling || p == LockPhase::Rechecking || p
        == LockPhase::BackingOff
}

pub open spec fn is_winner_phase(p: LockPhase) -> bool {
    p == LockPhase::Reading || p == LockPhase::Settling || p == LockPhase::Rechecking || p
        == LockPhase::Acquired
}

proof fn lemma_race_after_claims(ta: u64, tb: u64, s: Race, schedule: Seq<bool>)
    requires
        ta != tb,
        s.cell == Some(tb),
        is_loser_phase(s.a),
        is_winner_phase(s.b),
    ensures
        race_run(s, ta, tb, schedule).cell == Some(tb),
        is_loser_phase(race_run(s, ta, tb, schedule).a),
        is_winner_phase(race_run(s, ta, tb, schedule).b),
        progress(race_run(s, ta, tb, schedule).b) == if progress(s.b) + steps_of_b(schedule) < 3 {
            progress(s.b) + steps_of_b(schedule)
        } else {
            3
        },
    decreases schedule.len(),
{
    if schedule.len() > 0 {
        lemma_race_after_claims(ta, tb, s, schedule.drop_last());
    }
}

/// Two invocations race for a free lock: both read the free cell, then
/// both write their token, `b` last. From then on, whatever the order of
/// their steps, the cell keeps `b`'s token; `a` sees a foreign holder on
/// its next read and backs off, and never holds the lock; `b` holds it
/// once it has taken three steps of its own.
pub proof fn lemma_race_for_free_lock(ta: u64, tb: u64, schedule: Seq<bool>)
    requires
        ta != tb,
    ensures
        race_run(Race { cell: None, a: LockPhase::Reading, b: LockPhase::Reading }, ta, tb, seq![true, false, true, false])
            == (Race { cell: Some(tb), a: LockPhase::Reading, b: LockPhase::Reading }),
        race_step(Race { cell: Some(tb), a: LockPhase::Reading, b: LockPhase::Reading }, ta, tb, true).a
            == LockPhase::BackingOff,
        race_run(Race { cell: Some(tb), a: LockPhase::Reading, b: LockPhase::Reading }, ta, tb, schedule).a
            != LockPhase::Acquired,
        steps_of_b(schedule) >= 3 ==> race_run(
            Race { cell: Some(tb), a: LockPhase::Reading, b: LockPhase::Reading },
            ta,
            tb,
            schedule,
        ).b == LockPhase::Acquired,
{
    let start = Race { cell: None, a: LockPhase::Reading, b: LockPhase::Reading };
    let sched = seq![true, false, true, false];
    assert(sched.drop_last().drop_last().drop_last().drop_last() =~= Seq::<bool>::empty());
    assert(sched.drop_last().drop_last().drop_last() =~= seq![true]);
    assert(sched.drop_last().drop_last() =~= seq![true, false]);
    assert(sched.drop_last() =~= seq![true, false, true]);
    let s1 = Race { cell: None, a: LockPhase::Claiming, b: LockPhase::Reading };
    let s2 = Race { cell: None, a: LockPhase::Claiming, b: LockPhase::Claiming };
    let s3 = Race { cell: Some(ta), a: LockPhase::Reading, b: LockPhase::Claiming };
    assert(race_run(start, ta, tb, Seq::<bool>::empty()) == start);
    assert(race_run(start, ta, tb, seq![true]) == s1);
    assert(race_run(start, ta, tb, seq![true, false]) == s2);
    assert(race_run(start, ta, tb, seq![true, false, true]) == s3);
    let claimed = Race { cell: Some(tb), a: LockPhase::Reading, b: LockPhase::Reading };
    lemma_race_after_claims(ta, tb, claimed, schedule);
}

} // verus!

verus! {

/// One read of the cell confirms at most one token: two invocations with
/// different tokens that recheck the same holder cannot both take the lock.
pub proof fn lemma_confirmation_is_exclusive(holder: Option<u64>, ta: u64, tb: u64)
    requires
        ta != tb,
    ensures
        !(next_phase(LockPhase::Rechecking, ta, LockEvent::Holder(holder)) == LockPhase::Acquired
            && next_phase(LockPhase::Rechecking, tb, LockEvent::Holder(holder)) == LockPhase::Acquired),
{
}

/// Acquiring never frees the lock: a step of any invocation leaves a held
/// cell held.
pub proof fn lemma_never_releases(phase: LockPhase, token: u64, cell: Option<u64>)
    requires
        cell is Some,
    ensures
        advance(phase, token, cell).1 is Some,
{
}

} // verus!
