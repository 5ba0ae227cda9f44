//! The trajectory node: joint-space trajectories in equal steps.
//!
//! Targets come in as consecutive scalars, one for each joint. Each complete target is a
//! [`Move`] from where the last one ended, which is left in `steps` steps; each step is
//! sent as consecutive scalars again. Scalars are doubles, held by their bits.

use crate::numerals::{parse_usize, unsigned_value, usize_complaint};
use vstd::prelude::*;
use vstd::string::*;

verus! {

/// How many joints there are.
pub const JOINTS: usize = 7;

/// Why the number of steps could not be read from the command line.
#[derive(Debug)]
pub enum StepsError {
    /// Nothing follows `--steps`.
    Missing,
    /// What follows `--steps` is no number, or one that is too large.
    Invalid { raw: String, reason: String },
    /// No steps would send no trajectory at all.
    Zero,
}

/// What a [`StepsError`] says.
pub ghost enum StepsFault {
    Missing,
    Invalid { raw: Seq<char>, reason: Seq<char> },
    Zero,
}

impl StepsError {
    /// What the error says.
    pub open spec fn fault(self) -> StepsFault {
        match self {
            StepsError::Missing => StepsFault::Missing,
            StepsError::Invalid { raw, reason } => StepsFault::Invalid {
                raw: raw@,
                reason: reason@,
            },
            StepsError::Zero => StepsFault::Zero,
        }
    }

    /// The text of the error.
    pub fn message(&self) -> (r: String)
        ensures
            r@ == steps_error_text(*self),
            match *self {
                StepsError::Missing => r@ == "--steps requires a value"@,
                StepsError::Invalid { raw, reason } => r@ == "invalid --steps value '"@ + raw@
                    + "': "@ + reason@,
                StepsError::Zero => r@ == "--steps must be >= 1"@,
            },
    {
        match self {
            StepsError::Missing => "--steps requires a value".to_owned(),
            StepsError::Invalid { raw, reason } => {
                let mut text = "invalid --steps value '".to_owned();
                text.append(raw.as_str());
                text.append("': ");
                text.append(reason.as_str());
                text
            },
            StepsError::Zero => "--steps must be >= 1".to_owned(),
        }
    }
}

/// The text of an error.
pub open spec fn steps_error_text(e: StepsError) -> Seq<char> {
    match e {
        StepsError::Missing => "--steps requires a value"@,
        StepsError::Invalid { raw, reason } => "invalid --steps value '"@ + raw@ + "': "@ + reason@,
        StepsError::Zero => "--steps must be >= 1"@,
    }
}

/// Errors that say the same are of one kind, with the same text and reason.
pub proof fn errors_are_told_apart(a: StepsError, b: StepsError)
    requires
        a.fault() == b.fault(),
    ensures
        a is Missing <==> b is Missing,
        a is Zero <==> b is Zero,
        a matches StepsError::Invalid { raw, reason } ==> (b matches StepsError::Invalid {
            raw: other,
            reason: said,
        } && other@ == raw@ && said@ == reason@),
{
}

/// What is said of a text after `--steps` that is no number.
pub open spec fn invalid_steps(raw: Seq<char>) -> StepsFault {
    StepsFault::Invalid { raw, reason: usize_complaint(raw) }
}

/// The number of steps that the arguments from `i` on ask for, where those before ask for
/// `steps`: what follows the last `--steps`.
pub open spec fn steps_from(args: Seq<String>, i: int, steps: int) -> Result<int, StepsFault>
    decreases args.len() - i,
{
    if i >= args.len() {
        Ok(steps)
    } else if args[i]@ != "--steps"@ {
        steps_from(args, i + 1, steps)
    } else if i + 1 >= args.len() {
        Err(StepsFault::Missing)
    } else {
        match unsigned_value(args[i + 1]@) {
            Some(n) => if n <= usize::MAX {
                steps_from(args, i + 2, n)
            } else {
                Err(invalid_steps(args[i + 1]@))
            },
            None => Err(invalid_steps(args[i + 1]@)),
        }
    }
}

/// The number of steps that a command line asks for: 10 if it does not say.
pub open spec fn steps_of(args: Seq<String>) -> Result<int, StepsFault> {
    match steps_from(args, 1, 10) {
        Ok(n) => if n == 0 {
            Err(StepsFault::Zero)
        } else {
            Ok(n)
        },
        Err(fault) => Err(fault),
    }
}

/// What a result of [`parse_steps`] holds.
pub open spec fn steps_outcome(r: Result<usize, StepsError>) -> Result<int, StepsFault> {
    match r {
        Ok(n) => Ok(n as int),
        Err(e) => Err(e.fault()),
    }
}

/// Whether none of the arguments from `i` on is `--steps`.
pub open spec fn says_no_more(args: Seq<String>, i: int) -> bool {
    forall|j: int| i <= j < args.len() ==> (#[trigger] args[j])@ != "--steps"@
}

/// Arguments that say nothing of steps leave them as they are.
proof fn other_arguments_change_nothing(args: Seq<String>, i: int, steps: int)
    requires
        says_no_more(args, i),
    ensures
        steps_from(args, i, steps) == Ok::<int, StepsFault>(steps),
    decreases args.len() - i,
{
    if i < args.len() {
        other_arguments_change_nothing(args, i + 1, steps);
    }
}

/// Where the arguments before `i` are other ones, what counts is what comes from there on.
proof fn other_arguments_are_passed_over(args: Seq<String>, from: int, i: int, steps: int)
    requires
        from <= i <= args.len(),
        forall|j: int| from <= j < i ==> (#[trigger] args[j])@ != "--steps"@,
    ensures
        steps_from(args, from, steps) == steps_from(args, i, steps),
    decreases i - from,
{
    if from < i {
        other_arguments_are_passed_over(args, from + 1, i, steps);
    }
}

/// A command line that says nothing of steps asks for 10.
pub proof fn ten_steps_by_default(args: Seq<String>)
    requires
        says_no_more(args, 1),
    ensures
        steps_of(args) == Ok::<int, StepsFault>(10),
{
    other_arguments_change_nothing(args, 1, 10);
}

/// A command line with one `--steps`, wherever it stands after the name of the program, asks
/// for the number that follows it, is refused where that is zero or no number that fits, and
/// is refused where nothing follows.
pub proof fn steps_are_what_is_asked_for(args: Seq<String>, i: int)
    requires
        1 <= i < args.len(),
        forall|j: int| 1 <= j < i ==> (#[trigger] args[j])@ != "--steps"@,
        args[i]@ == "--steps"@,
        says_no_more(args, i + 2),
    ensures
        i + 1 == args.len() ==> steps_of(args) == Err::<int, StepsFault>(StepsFault::Missing),
        i + 1 < args.len() ==> match unsigned_value(args[i + 1]@) {
            Some(n) => {
                &&& 1 <= n <= usize::MAX ==> steps_of(args) == Ok::<int, StepsFault>(n)
                &&& n == 0 ==> steps_of(args) == Err::<int, StepsFault>(StepsFault::Zero)
                &&& n > usize::MAX ==> (steps_of(args) matches Err(StepsFault::Invalid { raw, .. })
                    && raw == args[i + 1]@)
            },
            None => steps_of(args) matches Err(StepsFault::Invalid { raw, .. }) && raw == args[i
                + 1]@,
        },
{
    other_arguments_are_passed_over(args, 1, i, 10);
    if i + 1 < args.len() {
        match unsigned_value(args[i + 1]@) {
            Some(n) => {
                other_arguments_change_nothing(args, i + 2, n);
            },
            None => {},
        }
    }
}

/// A `--steps` and a number at the end replace what was asked for before.
proof fn later_steps_replace_earlier(
    args: Seq<String>,
    option: String,
    raw: String,
    from: int,
    steps: int,
)
    requires
        0 <= from <= args.len(),
        steps_from(args, from, steps) is Ok,
        option@ == "--steps"@,
        unsigned_value(raw@) matches Some(n) && n <= usize::MAX,
    ensures
        steps_from(args.push(option).push(raw), from, steps) == Ok::<int, StepsFault>(
            unsigned_value(raw@)->Some_0,
        ),
    decreases args.len() - from,
{
    let all = args.push(option).push(raw);
    assert(forall|j: int| 0 <= j < args.len() ==> all[j] == #[trigger] args[j]);
    if from >= args.len() {
        assert(all[from] == option && all[from + 1] == raw);
        other_arguments_change_nothing(all, from + 2, unsigned_value(raw@)->Some_0);
    } else if args[from]@ != "--steps"@ {
        later_steps_replace_earlier(args, option, raw, from + 1, steps);
    } else {
        assert(all[from + 1] == args[from + 1]);
        later_steps_replace_earlier(args, option, raw, from + 2, unsigned_value(args[from + 1]@)->Some_0);
    }
}

/// A `--steps` whose value is refused decides, whatever is asked for after it.
proof fn refused_steps_decide(args: Seq<String>, more: Seq<String>, from: int, steps: int)
    requires
        0 <= from,
        steps_from(args, from, steps) matches Err(StepsFault::Invalid { .. }),
    ensures
        steps_from(args + more, from, steps) == steps_from(args, from, steps),
    decreases args.len() - from,
{
    assert((args + more)[from] == args[from]);
    if args[from]@ != "--steps"@ {
        refused_steps_decide(args, more, from + 1, steps);
    } else {
        assert((args + more)[from + 1] == args[from + 1]);
        match unsigned_value(args[from + 1]@) {
            Some(n) => {
                if n <= usize::MAX {
                    refused_steps_decide(args, more, from + 2, n);
                }
            },
            None => {},
        }
    }
}

/// That no steps are asked for is found only at the end.
proof fn zero_is_refused_last(args: Seq<String>, from: int, steps: int)
    ensures
        steps_from(args, from, steps) != Err::<int, StepsFault>(StepsFault::Zero),
    decreases args.len() - from,
{
    if from < args.len() {
        if args[from]@ != "--steps"@ {
            zero_is_refused_last(args, from + 1, steps);
        } else if from + 1 < args.len() {
            match unsigned_value(args[from + 1]@) {
                Some(n) => {
                    zero_is_refused_last(args, from + 2, n);
                },
                None => {},
            }
        }
    }
}

/// Of several `--steps` the last one counts, also after one that asks for none: a command
/// line whose options all have a number, and that goes on with `--steps` and one more, asks
/// for the latter. The first value that is no number is what is complained of, whatever
/// follows it.
pub proof fn last_steps_count(args: Seq<String>, option: String, raw: String, more: Seq<String>)
    requires
        args.len() >= 1,
        option@ == "--steps"@,
    ensures
        (steps_of(args) is Ok || steps_of(args) == Err::<int, StepsFault>(StepsFault::Zero)) ==> (
        unsigned_value(raw@) matches Some(n) ==> 1 <= n <= usize::MAX ==> steps_of(
            args.push(option).push(raw),
        ) == Ok::<int, StepsFault>(n)),
        (steps_of(args) matches Err(StepsFault::Invalid { .. })) ==> steps_of(args + more)
            == steps_of(args),
{
    zero_is_refused_last(args, 1, 10);
    if steps_from(args, 1, 10) is Ok {
        match unsigned_value(raw@) {
            Some(n) => {
                if n <= usize::MAX {
                    later_steps_replace_earlier(args, option, raw, 1, 10);
                }
            },
            None => {},
        }
    } else if steps_from(args, 1, 10) matches Err(StepsFault::Invalid { .. }) {
        refused_steps_decide(args, more, 1, 10);
    }
}

/// Parse the `--steps <n>` command-line argument, of which the first is the name of the
/// program.
pub fn parse_steps(args: &Vec<String>) -> (r: Result<usize, StepsError>)
    ensures
        steps_outcome(r) == steps_of(args@),
        r is Ok <==> steps_of(args@) is Ok,
        r matches Ok(n) ==> steps_of(args@) == Ok::<int, StepsFault>(n as int),
        r matches Err(e) ==> steps_of(args@) == Err::<int, StepsFault>(e.fault()),
        r matches Ok(n) ==> n >= 1,
        says_no_more(args@, 1) ==> r == Ok::<usize, StepsError>(10),
{
    proof {
        if says_no_more(args@, 1) {
            ten_steps_by_default(args@);
        }
    }
    let option = "--steps".to_owned();
    let mut steps: usize = 10;
    let mut i: usize = 1;
    while i < args.len()
        invariant
            option@ == "--steps"@,
            1 <= i,
            steps_from(args@, 1, 10) == steps_from(args@, i as int, steps as int),
        decreases args.len() - i,
    {
        if args[i] == option {
            i = i + 1;
            if i >= args.len() {
                return Err(StepsError::Missing);
            }
            match parse_usize(args[i].as_str()) {
                Ok(n) => {
                    steps = n;
                },
                Err(reason) => {
                    return Err(StepsError::Invalid { raw: args[i].clone(), reason });
                },
            }
        }
        i = i + 1;
    }
    if steps == 0 {
        return Err(StepsError::Zero);
    }
    Ok(steps)
}

/// How many complete targets these scalars make.
pub open spec fn target_count(scalars: Seq<u64>) -> int {
    scalars.len() as int / JOINTS as int
}

/// The configuration after `k` targets: the `k`-th of them, or the all-zero home position.
pub open spec fn configuration(scalars: Seq<u64>, k: int) -> Seq<u64> {
    if k == 0 {
        seq![0u64, 0u64, 0u64, 0u64, 0u64, 0u64, 0u64]
    } else {
        scalars.subrange((k - 1) * JOINTS, k * JOINTS)
    }
}

/// A move of all joints from one configuration to another.
#[derive(Debug)]
pub struct Move {
    from: Vec<u64>,
    to: Vec<u64>,
    steps: usize,
    /// The step of the next scalar, from 1 on.
    step: usize,
    /// The joint of the next scalar.
    joint: usize,
    /// Whether all scalars have been given.
    over: bool,
}

/// One scalar of a move: the position of `joint` on the way `from` one scalar `to` another
/// at step `step` of `steps`.
#[derive(Clone, Copy, Debug, PartialEq, Eq, Structural)]
pub struct Waypoint {
    pub joint: usize,
    pub from: u64,
    pub to: u64,
    pub step: usize,
    pub steps: usize,
}

/// The scalar that a move sends after `n` others: all joints of the first step, then all of
/// the second, and so on.
pub open spec fn nth_waypoint(from: Seq<u64>, to: Seq<u64>, steps: int, n: int) -> Waypoint {
    Waypoint {
        joint: (n % JOINTS as int) as usize,
        from: from[n % JOINTS as int],
        to: to[n % JOINTS as int],
        step: (n / JOINTS as int + 1) as usize,
        steps: steps as usize,
    }
}

/// How many scalars a move sends.
pub open spec fn waypoint_count(steps: int) -> int {
    JOINTS * steps
}

/// How many scalars are sent for these: each complete target takes `steps` steps, and an
/// incomplete one none.
pub open spec fn output_count(scalars: Seq<u64>, steps: int) -> int {
    target_count(scalars) * waypoint_count(steps)
}

/// Each scalar that completes a target adds the scalars of one move to what is sent, and any
/// other adds none.
pub proof fn each_target_adds_one_move(scalars: Seq<u64>, scalar: u64, steps: int)
    ensures
        output_count(scalars.push(scalar), steps) == output_count(scalars, steps) + (if (
        scalars.len() + 1) % 7 == 0 {
            waypoint_count(steps)
        } else {
            0
        }),
{
    let k = target_count(scalars);
    let w = waypoint_count(steps);
    if (scalars.len() + 1) % 7 == 0 {
        assert(target_count(scalars.push(scalar)) == k + 1);
        assert((k + 1) * w == k * w + w) by (nonlinear_arith);
    } else {
        assert(target_count(scalars.push(scalar)) == k);
    }
}

/// A move ends at its target: the last step is step `steps` of `steps`, with every joint in
/// order.
pub proof fn moves_end_at_the_target(from: Seq<u64>, to: Seq<u64>, steps: int, joint: int)
    requires
        1 <= steps <= usize::MAX,
        0 <= joint < JOINTS,
    ensures
        nth_waypoint(from, to, steps, waypoint_count(steps) - JOINTS + joint) == (Waypoint {
            joint: joint as usize,
            from: from[joint],
            to: to[joint],
            step: steps as usize,
            steps: steps as usize,
        }),
{
    let n = waypoint_count(steps) - JOINTS + joint;
    assert(n / 7 == steps - 1 && n % 7 == joint);
}

/// Each step of a move comes exactly once, in order: the scalar that comes after those of all
/// the steps before step `s`, and after `joint` others of that step, is that of the joint at
/// step `s` of `steps`.
pub proof fn each_step_comes_in_turn(from: Seq<u64>, to: Seq<u64>, steps: int, s: int, joint: int)
    requires
        1 <= s <= steps <= usize::MAX,
        0 <= joint < 7,
    ensures
        0 <= (s - 1) * 7 + joint < waypoint_count(steps),
        nth_waypoint(from, to, steps, (s - 1) * 7 + joint).joint == joint,
        nth_waypoint(from, to, steps, (s - 1) * 7 + joint).from == from[joint],
        nth_waypoint(from, to, steps, (s - 1) * 7 + joint).to == to[joint],
        nth_waypoint(from, to, steps, (s - 1) * 7 + joint).step == s,
        nth_waypoint(from, to, steps, (s - 1) * 7 + joint).steps == steps,
{
    let n = (s - 1) * 7 + joint;
    assert(n / 7 == s - 1 && n % 7 == joint);
}

/// A move sends one scalar for each joint at each step, and of two scalars the later is at a
/// later step, or at the same step and of a later joint: none comes twice.
pub proof fn scalars_come_in_order(from: Seq<u64>, to: Seq<u64>, steps: int, n: int, later: int)
    requires
        1 <= steps <= usize::MAX,
        0 <= n < later < waypoint_count(steps),
    ensures
        waypoint_count(steps) == steps * 7,
        ({
            let a = nth_waypoint(from, to, steps, n);
            let b = nth_waypoint(from, to, steps, later);
            &&& 1 <= a.step <= b.step <= steps
            &&& a.step == b.step ==> a.joint < b.joint
            &&& a.joint < 7 && b.joint < 7
            &&& n == (a.step - 1) * 7 + a.joint
        }),
{
    assert(n / 7 < steps && later / 7 < steps);
    assert(n / 7 <= later / 7);
    assert(n == (n / 7) * 7 + n % 7 && later == (later / 7) * 7 + later % 7);
}

/// The home position has every joint at zero, and the `k`-th target has joint `j` at the
/// scalar that comes after all of those of the targets before it and `j` of its own.
pub proof fn targets_are_consecutive_scalars(scalars: Seq<u64>, k: int, joint: int)
    requires
        0 <= k <= scalars.len() / 7,
        0 <= joint < 7,
    ensures
        configuration(scalars, k).len() == 7,
        k == 0 ==> configuration(scalars, k)[joint] == 0,
        k > 0 ==> configuration(scalars, k)[joint] == scalars[(k - 1) * 7 + joint],
{
}

/// A target takes seven scalars: as many targets are complete as there are sevens of
/// scalars, and each has a scalar for each joint at each of its steps.
pub proof fn every_seven_scalars_are_a_target(scalars: Seq<u64>, steps: int, k: int, rest: int)
    requires
        steps >= 1,
        0 <= rest < 7,
        k >= 0,
        scalars.len() == 7 * k + rest,
    ensures
        target_count(scalars) == k,
        output_count(scalars, steps) == k * steps * 7,
{
    assert(target_count(scalars) == k);
    assert(k * (7 * steps) == k * steps * 7) by (nonlinear_arith);
}

/// What has been sent for complete targets stays the same when more scalars come: the
/// configurations are those of the scalars so far.
pub proof fn configurations_are_kept(scalars: Seq<u64>, more: Seq<u64>, k: int)
    requires
        0 <= k <= target_count(scalars),
    ensures
        k <= target_count(scalars + more),
        configuration(scalars + more, k) == configuration(scalars, k),
{
    assert(configuration(scalars + more, k) =~= configuration(scalars, k));
}

impl Move {
    /// Where the joints are at the start.
    pub closed spec fn start(self) -> Seq<u64> {
        self.from@
    }

    /// Where the joints are at the end.
    pub closed spec fn target(self) -> Seq<u64> {
        self.to@
    }

    /// In how many steps the target is reached.
    pub closed spec fn step_count(self) -> int {
        self.steps as int
    }

    /// How many scalars have been given.
    pub closed spec fn given(self) -> int {
        if self.over {
            waypoint_count(self.steps as int)
        } else {
            (self.step - 1) * JOINTS + self.joint
        }
    }

    /// Whether the move is in a state that it can come to.
    pub closed spec fn valid(self) -> bool {
        &&& self.from@.len() == JOINTS
        &&& self.to@.len() == JOINTS
        &&& self.steps >= 1
        &&& !self.over ==> 1 <= self.step <= self.steps && self.joint < JOINTS
    }

    /// Give the next scalar, or `None` after the last.
    pub fn next_waypoint(&mut self) -> (r: Option<Waypoint>)
        requires
            old(self).valid(),
        ensures
            final(self).valid(),
            final(self).start() == old(self).start(),
            final(self).target() == old(self).target(),
            final(self).step_count() == old(self).step_count(),
            match r {
                Some(waypoint) => {
                    &&& old(self).given() < waypoint_count(old(self).step_count())
                    &&& waypoint == nth_waypoint(
                        old(self).start(),
                        old(self).target(),
                        old(self).step_count(),
                        old(self).given(),
                    )
                    &&& final(self).given() == old(self).given() + 1
                    &&& 1 <= waypoint.step <= old(self).step_count()
                    &&& waypoint.joint < 7
                    &&& old(self).given() == (waypoint.step - 1) * 7 + waypoint.joint
                    &&& waypoint.from == old(self).start()[waypoint.joint as int]
                    &&& waypoint.to == old(self).target()[waypoint.joint as int]
                    &&& waypoint.steps == old(self).step_count()
                },
                None => {
                    &&& old(self).given() == waypoint_count(old(self).step_count())
                    &&& old(self).given() == old(self).step_count() * 7
                    &&& final(self).given() == old(self).given()
                },
            },
    {
        if self.over {
            return None;
        }
        proof {
            let n = self.given();
            assert(n / 7 == self.step - 1 && n % 7 == self.joint);
        }
        let waypoint = Waypoint {
            joint: self.joint,
            from: self.from[self.joint],
            to: self.to[self.joint],
            step: self.step,
            steps: self.steps,
        };
        if self.joint + 1 < JOINTS {
            self.joint = self.joint + 1;
        } else if self.step < self.steps {
            self.joint = 0;
            self.step = self.step + 1;
        } else {
            self.over = true;
        }
        Some(waypoint)
    }
}

/// The state of the trajectory node.
pub struct TrajectoryNode {
    steps: usize,
    /// The current configuration.
    current: Vec<u64>,
    /// The scalars of the incoming target.
    buffer: Vec<u64>,
    /// All the scalars so far.
    scalars: Ghost<Seq<u64>>,
}

impl TrajectoryNode {
    /// In how many steps each target is reached.
    pub closed spec fn step_count(self) -> int {
        self.steps as int
    }

    /// All the scalars so far.
    pub closed spec fn received(self) -> Seq<u64> {
        self.scalars@
    }

    /// The node is at the last complete target, and has buffered what came after it.
    pub closed spec fn valid(self) -> bool {
        let k = target_count(self.scalars@);
        &&& self.steps >= 1
        &&& self.buffer@.len() < JOINTS
        &&& self.buffer@ == self.scalars@.skip(k * JOINTS)
        &&& self.current@ == configuration(self.scalars@, k)
        &&& self.current@.len() == JOINTS
    }

    /// A node in its home position.
    pub fn new(steps: usize) -> (r: Self)
        requires
            steps >= 1,
        ensures
            r.valid(),
            r.step_count() == steps,
            r.received() == Seq::<u64>::empty(),
    {
        let current: Vec<u64> = vec![0, 0, 0, 0, 0, 0, 0];
        let buffer: Vec<u64> = Vec::new();
        let node = TrajectoryNode { steps, current, buffer, scalars: Ghost(Seq::empty()) };
        assert(node.buffer@ =~= node.scalars@.skip(0));
        assert(node.current@ =~= configuration(node.scalars@, 0));
        node
    }

    /// Take in one scalar. The one that completes a target gives the move to it.
    pub fn receive(&mut self, scalar: u64) -> (r: Option<Move>)
        requires
            old(self).valid(),
        ensures
            final(self).valid(),
            final(self).step_count() == old(self).step_count(),
            final(self).received() == old(self).received().push(scalar),
            r is Some <==> final(self).received().len() % 7 == 0,
            r matches Some(m) ==> {
                let k = target_count(final(self).received());
                &&& m.valid()
                &&& m.start() == configuration(final(self).received(), k - 1)
                &&& m.target() == configuration(final(self).received(), k)
                &&& m.step_count() == old(self).step_count()
                &&& m.given() == 0
                &&& m.start().len() == 7
                &&& m.target().len() == 7
                &&& forall|joint: int|
                    0 <= joint < 7 ==> #[trigger] m.target()[joint]
                        == final(self).received()[final(self).received().len() - 7 + joint]
                &&& forall|joint: int|
                    0 <= joint < 7 ==> #[trigger] m.start()[joint]
                        == if final(self).received().len() == 7 {
                        0
                    } else {
                        final(self).received()[final(self).received().len() - 14 + joint]
                    }
            },
    {
        let ghost before = self.scalars@;
        let ghost k = target_count(before);
        self.buffer.push(scalar);
        proof {
            self.scalars@ = before.push(scalar);
            configurations_are_kept(before, seq![scalar], k);
            assert(before.push(scalar) =~= before + seq![scalar]);
            assert(self.buffer@ =~= self.scalars@.skip(k * JOINTS));
        }
        if self.buffer.len() < JOINTS {
            assert(target_count(self.scalars@) == k);
            return None;
        }
        assert(target_count(self.scalars@) == k + 1);
        assert(self.buffer@ =~= configuration(self.scalars@, k + 1));
        let mut to: Vec<u64> = Vec::new();
        std::mem::swap(&mut to, &mut self.buffer);
        let mut i: usize = 0;
        let mut from: Vec<u64> = Vec::new();
        let mut reached: Vec<u64> = Vec::new();
        while i < JOINTS
            invariant
                i <= JOINTS,
                to@.len() == JOINTS,
                reached@ == to@.take(i as int),
            decreases JOINTS - i,
        {
            reached.push(to[i]);
            i = i + 1;
        }
        assert(reached@ =~= to@);
        std::mem::swap(&mut from, &mut self.current);
        self.current = reached;
        assert(self.buffer@ =~= self.scalars@.skip((k + 1) * JOINTS));
        Some(Move { from, to, steps: self.steps, step: 1, joint: 0, over: false })
    }
}

} // verus!
