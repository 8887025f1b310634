//! Watching the process of a native step: when to kill it, how much of its
//! output to keep, and what the kernel's control files say of it.

use crate::text;
use vstd::prelude::*;

verus! {

/// Cap on captured stdout/stderr per step. Of a process that emits more, the
/// first `MAX_CAPTURE_BYTES` are kept; the remainder is drained from the pipe
/// but not retained, so that the process doesn't block.
pub const MAX_CAPTURE_BYTES: usize = 16_777_216;

/// Bytes of a pipe, up to a cap.
#[derive(Clone, Debug, PartialEq, Eq)]
pub struct CappedBuffer {
    kept: Vec<u8>,
    cap: usize,
}

/// The first bytes of a string, at most `cap`.
pub open spec fn first_bytes(b: Seq<u8>, cap: int) -> Seq<u8> {
    if b.len() <= cap {
        b
    } else {
        b.take(cap)
    }
}

impl View for CappedBuffer {
    type V = Seq<u8>;

    closed spec fn view(&self) -> Seq<u8> {
        self.kept@
    }
}

impl CappedBuffer {
    /// The cap.
    pub closed spec fn cap(&self) -> int {
        self.cap as int
    }

    /// Whether no more than the cap is kept.
    pub open spec fn wf(&self) -> bool {
        self@.len() <= self.cap()
    }

    /// Nothing read yet.
    #[must_use]
    pub fn new(cap: usize) -> (r: Self)
        ensures
            r.wf(),
            r@ == Seq::<u8>::empty(),
            r.cap() == cap,
    {
        CappedBuffer { kept: Vec::new(), cap }
    }

    /// Take in one more chunk; what is past the cap is dropped.
    pub fn read(&mut self, chunk: &[u8])
        requires
            old(self).wf(),
        ensures
            final(self).wf(),
            final(self).cap() == old(self).cap(),
            final(self)@ == first_bytes(old(self)@ + chunk@, old(self).cap()),
    {
        let room: usize = self.cap - self.kept.len();
        let ghost before = self.kept@;
        if chunk.len() <= room {
            crate::bytes::append_bytes(&mut self.kept, chunk);
        } else {
            let part = vstd::slice::slice_subrange(chunk, 0, room);
            crate::bytes::append_bytes(&mut self.kept, part);
            assert(self.kept@ =~= (before + chunk@).take(self.cap as int));
        }
    }

    /// What was kept.
    #[must_use]
    pub fn into_bytes(self) -> (r: Vec<u8>)
        ensures
            r@ == self@,
    {
        self.kept
    }
}

/// All chunks, one after the other.
pub open spec fn joined_chunks(chunks: Seq<Seq<u8>>) -> Seq<u8>
    decreases chunks.len(),
{
    if chunks.len() == 0 {
        Seq::empty()
    } else {
        joined_chunks(chunks.drop_last()) + chunks.last()
    }
}

/// What is kept after some chunks.
pub open spec fn kept_of(chunks: Seq<Seq<u8>>, cap: int) -> Seq<u8>
    decreases chunks.len(),
{
    if chunks.len() == 0 {
        Seq::empty()
    } else {
        first_bytes(kept_of(chunks.drop_last(), cap) + chunks.last(), cap)
    }
}

/// However a pipe is cut into chunks, what is kept of it is its first bytes.
pub proof fn law_chunking_is_irrelevant(chunks: Seq<Seq<u8>>, cap: int)
    requires
        cap >= 0,
    ensures
        kept_of(chunks, cap) == first_bytes(joined_chunks(chunks), cap),
    decreases chunks.len(),
{
    if chunks.len() > 0 {
        let front = chunks.drop_last();
        law_chunking_is_irrelevant(front, cap);
        let (j, c) = (joined_chunks(front), chunks.last());
        if j.len() > cap {
            assert(first_bytes(first_bytes(j, cap) + c, cap) =~= (j + c).take(cap));
        }
        assert(kept_of(chunks, cap) =~= first_bytes(j + c, cap));
    }
}

// ── Waiting ────────────────────────────────────────────────────────────────
/// What a look at a process shows.
#[derive(Clone, Copy, Debug, PartialEq, Eq, Structural)]
pub enum ProcessLook {
    /// It has exited.
    Exited,
    /// It is still running.
    Running,
    /// The look failed.
    Unknown,
}

/// What to do with a process that was looked at.
#[derive(Clone, Copy, Debug, PartialEq, Eq, Structural)]
pub enum WaitAction {
    /// Take its exit status.
    Collect,
    /// Kill it: it ran past its wall-clock limit. Also the end of waiting for a
    /// process that cannot be looked at.
    EndByWall,
    /// Kill it: it ran past its CPU-time limit.
    EndByCpu,
    /// Look again later.
    LookAgain,
}

/// Whether a process has to be looked at again and again. Without a limit a
/// plain wait will do.
#[must_use]
pub fn must_poll(wall_seconds: u32, cpu_seconds: u32) -> (r: bool)
    ensures
        r == (wall_seconds > 0 || cpu_seconds > 0),
{
    wall_seconds > 0 || cpu_seconds > 0
}

/// What to do with a process that was looked at. Zero is no limit. The first
/// limit hit wins, the wall clock before the CPU; CPU time counts only where it
/// is known.
pub open spec fn wait_action_of(
    look: ProcessLook,
    elapsed_ns: u128,
    wall_seconds: u32,
    cpu_usage_usec: Option<u64>,
    cpu_seconds: u32,
) -> WaitAction {
    match look {
        ProcessLook::Exited => WaitAction::Collect,
        ProcessLook::Unknown => WaitAction::EndByWall,
        ProcessLook::Running => if wall_seconds > 0 && elapsed_ns >= wall_seconds
            * 1_000_000_000 {
            WaitAction::EndByWall
        } else if cpu_seconds > 0 && cpu_usage_usec is Some && cpu_usage_usec->0 >= cpu_seconds
            * 1_000_000 {
            WaitAction::EndByCpu
        } else {
            WaitAction::LookAgain
        },
    }
}

/// What to do with a process that was looked at.
#[must_use]
pub fn wait_action(
    look: ProcessLook,
    elapsed_ns: u128,
    wall_seconds: u32,
    cpu_usage_usec: Option<u64>,
    cpu_seconds: u32,
) -> (r: WaitAction)
    ensures
        r == wait_action_of(look, elapsed_ns, wall_seconds, cpu_usage_usec, cpu_seconds),
{
    match look {
        ProcessLook::Exited => WaitAction::Collect,
        ProcessLook::Unknown => WaitAction::EndByWall,
        ProcessLook::Running => {
            if wall_seconds > 0 && elapsed_ns >= wall_seconds as u128 * 1_000_000_000 {
                return WaitAction::EndByWall;
            }
            if cpu_seconds > 0 {
                if let Some(usage) = cpu_usage_usec {
                    if usage >= cpu_seconds as u64 * 1_000_000 {
                        return WaitAction::EndByCpu;
                    }
                }
            }
            WaitAction::LookAgain
        },
    }
}

/// A process that has exited is never ended by a limit, and one that runs within
/// its limits is never killed.
pub proof fn law_no_limit_hit_no_kill(
    elapsed_ns: u128,
    wall_seconds: u32,
    cpu_usage_usec: Option<u64>,
    cpu_seconds: u32,
)
    ensures
        wait_action_of(
            ProcessLook::Exited,
            elapsed_ns,
            wall_seconds,
            cpu_usage_usec,
            cpu_seconds,
        ) == WaitAction::Collect,
        (wall_seconds == 0 || elapsed_ns < wall_seconds * 1_000_000_000) && (cpu_seconds == 0
            || cpu_usage_usec is None || cpu_usage_usec->0 < cpu_seconds * 1_000_000)
            ==> wait_action_of(
            ProcessLook::Running,
            elapsed_ns,
            wall_seconds,
            cpu_usage_usec,
            cpu_seconds,
        ) == WaitAction::LookAgain,
{
}

// ── Control groups ─────────────────────────────────────────────────────────
/// The number that a line gives after a key, if it starts with the key and what
/// follows is a number.
pub open spec fn keyed_number(line: Seq<char>, key: Seq<char>) -> Option<nat> {
    if text::begins_with(line, key) {
        text::unsigned_of(text::trimmed(line.skip(key.len() as int)), u64::MAX as nat)
    } else {
        None
    }
}

fn read_keyed(line: &[char], key: &str) -> (r: (bool, Option<u64>))
    ensures
        r.0 == text::begins_with(line@, key@),
        match r.1 {
            Some(n) => keyed_number(line@, key@) == Some(n as nat),
            None => keyed_number(line@, key@) is None,
        },
{
    match text::strip_prefix(line, key) {
        Some(rest) => {
            let t = text::trim(rest.as_slice());
            (true, text::parse_unsigned(t.as_slice(), u64::MAX))
        },
        None => (false, None),
    }
}

/// Whether some line counts a kill.
pub open spec fn counts_kills(lines: Seq<Seq<char>>) -> bool {
    exists|i: int|
        0 <= i < lines.len() && keyed_number(#[trigger] lines[i], "oom_kill "@) is Some
            && keyed_number(lines[i], "oom_kill "@)->0 > 0
}

/// Whether the events of a control group record that the kernel killed a process
/// for its memory.
#[must_use]
pub fn was_oom_killed(events: &str) -> (r: bool)
    ensures
        r == counts_kills(text::lines_of(events@)),
{
    let chars = text::chars_of(events);
    let all = text::lines(chars.as_slice());
    let ghost av = text::texts(all@);
    let mut i: usize = 0;
    while i < all.len()
        invariant
            i <= all.len(),
            av == text::texts(all@),
            av == text::lines_of(events@),
            forall|k: int|
                0 <= k < i ==> !(keyed_number(#[trigger] av[k], "oom_kill "@) is Some
                    && keyed_number(av[k], "oom_kill "@)->0 > 0),
        decreases all.len() - i,
    {
        assert(av[i as int] == all@[i as int]@);
        if let Some(n) = read_keyed(all[i].as_slice(), "oom_kill ").1 {
            if n > 0 {
                return true;
            }
        }
        i = i + 1;
    }
    false
}

/// The position of the first line that starts with a key, or the number of
/// lines.
pub open spec fn first_keyed(lines: Seq<Seq<char>>, key: Seq<char>) -> nat
    decreases lines.len(),
{
    if lines.len() == 0 || text::begins_with(lines[0], key) {
        0
    } else {
        1 + first_keyed(lines.skip(1), key)
    }
}

fn find_keyed(all: &Vec<Vec<char>>, key: &str) -> (r: usize)
    ensures
        r == first_keyed(text::texts(all@), key@),
        r <= all@.len(),
{
    let ghost av = text::texts(all@);
    let mut i: usize = 0;
    assert(av.skip(0) =~= av);
    while i < all.len()
        invariant
            i <= all.len(),
            av == text::texts(all@),
            first_keyed(av, key@) == i + first_keyed(av.skip(i as int), key@),
        decreases all.len() - i,
    {
        assert(av.skip(i as int)[0] == all@[i as int]@);
        if read_keyed(all[i].as_slice(), key).0 {
            return i;
        }
        assert(av.skip(i as int).skip(1) =~= av.skip(i + 1));
        i = i + 1;
    }
    i
}

/// What the accounting of a control group says of the CPU time used: the number
/// of the first line that names it.
pub open spec fn usage_of(stat: Seq<char>) -> Option<nat> {
    let lines = text::lines_of(stat);
    let n = first_keyed(lines, "usage_usec "@) as int;
    if n < lines.len() {
        keyed_number(lines[n], "usage_usec "@)
    } else {
        None
    }
}

/// CPU time used by all tasks of a control group, in microseconds.
#[must_use]
pub fn cpu_usage_usec(stat: &str) -> (r: Option<u64>)
    ensures
        match r {
            Some(n) => usage_of(stat@) == Some(n as nat),
            None => usage_of(stat@) is None,
        },
{
    let chars = text::chars_of(stat);
    let all = text::lines(chars.as_slice());
    let n: usize = find_keyed(&all, "usage_usec ");
    if n == all.len() {
        return None;
    }
    assert(text::texts(all@)[n as int] == all@[n as int]@);
    read_keyed(all[n].as_slice(), "usage_usec ").1
}

/// A path without the slashes at its start.
pub open spec fn without_slashes(s: Seq<char>) -> Seq<char>
    decreases s.len(),
{
    if s.len() > 0 && s[0] == '/' {
        without_slashes(s.skip(1))
    } else {
        s
    }
}

/// The directory of the calling process's control group on the unified
/// hierarchy, if `/proc/self/cgroup` names one.
pub open spec fn cgroup_dir_of(listing: Seq<char>) -> Option<Seq<char>> {
    let lines = text::lines_of(listing);
    let n = first_keyed(lines, "0::"@) as int;
    if n < lines.len() {
        Some("/sys/fs/cgroup/"@ + without_slashes(lines[n].skip("0::"@.len() as int)))
    } else {
        None
    }
}

/// The directory of the calling process's control group. `None` where the
/// unified hierarchy is not in use.
#[must_use]
pub fn current_cgroup_path(listing: &str) -> (r: Option<String>)
    ensures
        match r {
            Some(p) => cgroup_dir_of(listing@) == Some(p@),
            None => cgroup_dir_of(listing@) is None,
        },
{
    let chars = text::chars_of(listing);
    let all = text::lines(chars.as_slice());
    let n: usize = find_keyed(&all, "0::");
    if n == all.len() {
        return None;
    }
    assert(text::texts(all@)[n as int] == all@[n as int]@);
    match text::strip_prefix(all[n].as_slice(), "0::") {
        Some(rest) => {
            let mut from: usize = 0;
            assert(rest@.skip(0) =~= rest@);
            while from < rest.len() && rest[from] == '/'
                invariant
                    from <= rest.len(),
                    without_slashes(rest@) == without_slashes(rest@.skip(from as int)),
                decreases rest.len() - from,
            {
                assert(rest@.skip(from as int).skip(1) =~= rest@.skip(from + 1));
                from = from + 1;
            }
            let tail = text::copy_range(rest.as_slice(), from, rest.len());
            assert(tail@ =~= rest@.skip(from as int));
            let mut out = "/sys/fs/cgroup/".to_owned();
            text::append_chars(&mut out, tail.as_slice());
            Some(out)
        },
        None => {
            proof {
                lemma_first_keyed(text::texts(all@), "0::"@);
            }
            None
        },
    }
}

proof fn lemma_first_keyed(lines: Seq<Seq<char>>, key: Seq<char>)
    ensures
        first_keyed(lines, key) < lines.len() ==> text::begins_with(
            lines[first_keyed(lines, key) as int],
            key,
        ),
    decreases lines.len(),
{
    if lines.len() > 0 && !text::begins_with(lines[0], key) {
        lemma_first_keyed(lines.skip(1), key);
    }
}

/// Whether `cgroup.subtree_control` hands a controller on to the children.
#[must_use]
pub fn subtree_has_controller(subtree_control: &str, controller: &str) -> (r: bool)
    ensures
        r == text::words_of(subtree_control@, false).contains(controller@),
{
    let chars = text::chars_of(subtree_control);
    let want = text::chars_of(controller);
    let words = text::words(chars.as_slice(), false);
    let ghost wv = text::texts(words@);
    let mut i: usize = 0;
    while i < words.len()
        invariant
            i <= words.len(),
            wv == text::texts(words@),
            want@ == controller@,
            wv == text::words_of(subtree_control@, false),
            forall|k: int| 0 <= k < i ==> #[trigger] wv[k] != controller@,
        decreases words.len() - i,
    {
        assert(wv[i as int] == words@[i as int]@);
        if text::chars_eq(words[i].as_slice(), want.as_slice()) {
            assert(wv[i as int] == controller@);
            return true;
        }
        i = i + 1;
    }
    false
}

/// What keeps a step from getting a control group of its own.
#[derive(Clone, Copy, Debug, PartialEq, Eq, Structural)]
pub enum CgroupPlan {
    /// No limit needs one.
    NotNeeded,
    /// The memory controller is not handed on.
    LacksMemory,
    /// The CPU controller is not handed on.
    LacksCpu,
    /// Nothing: it can be made.
    Create,
}

/// Whether a step gets a control group of its own. Each limit needs its own
/// controller; where one is lacking, the step runs without any rather than with
/// some of its limits.
#[must_use]
pub fn cgroup_plan(memory_mb: u32, cpu_seconds: u32, subtree_control: &str) -> (r: CgroupPlan)
    ensures
        r == if memory_mb == 0 && cpu_seconds == 0 {
            CgroupPlan::NotNeeded
        } else if memory_mb > 0 && !text::words_of(subtree_control@, false).contains("memory"@) {
            CgroupPlan::LacksMemory
        } else if cpu_seconds > 0 && !text::words_of(subtree_control@, false).contains("cpu"@) {
            CgroupPlan::LacksCpu
        } else {
            CgroupPlan::Create
        },
{
    if memory_mb == 0 && cpu_seconds == 0 {
        return CgroupPlan::NotNeeded;
    }
    if memory_mb > 0 && !subtree_has_controller(subtree_control, "memory") {
        return CgroupPlan::LacksMemory;
    }
    if cpu_seconds > 0 && !subtree_has_controller(subtree_control, "cpu") {
        return CgroupPlan::LacksCpu;
    }
    CgroupPlan::Create
}

/// What is written to `memory.max`: the limit in bytes.
#[must_use]
pub fn memory_max(memory_mb: u32) -> (r: String)
    ensures
        r@ == text::decimal_of((memory_mb * 1_048_576) as nat),
{
    text::decimal(memory_mb as u64 * 1_048_576)
}

/// The name of a step's control group. Process, step and time keep concurrent
/// steps apart.
#[must_use]
pub fn cgroup_name(pid: u32, step_index: u32, now_ns: u64) -> (r: String)
    ensures
        r@ == "cosaci-step-"@ + text::decimal_of(pid as nat) + "-"@ + text::decimal_of(
            step_index as nat,
        ) + "-"@ + text::decimal_of(now_ns as nat),
{
    let mut out = "cosaci-step-".to_owned();
    text::append_decimal(&mut out, pid as u64);
    text::append_str(&mut out, "-");
    text::append_decimal(&mut out, step_index as u64);
    text::append_str(&mut out, "-");
    text::append_decimal(&mut out, now_ns);
    out
}

/// Output is kept from its start: all of it where it fits, else as much as fits.
pub proof fn law_output_is_kept_from_its_start(b: Seq<u8>, cap: int)
    requires
        cap >= 0,
    ensures
        first_bytes(b, cap).len() == (if b.len() <= cap {
            b.len() as int
        } else {
            cap
        }),
        forall|i: int|
            0 <= i < first_bytes(b, cap).len() ==> #[trigger] first_bytes(b, cap)[i] == b[i],
        joined_chunks(seq![b]) == b,
{
    let one = seq![b];
    assert(one.drop_last() =~= Seq::<Seq<u8>>::empty());
    reveal_with_fuel(joined_chunks, 2);
    assert(joined_chunks(one) =~= b);
}

/// Chunks are joined in the order in which they came.
pub proof fn law_chunks_are_joined_in_order(a: Seq<Seq<u8>>, b: Seq<Seq<u8>>)
    ensures
        joined_chunks(a + b) == joined_chunks(a) + joined_chunks(b),
    decreases b.len(),
{
    if b.len() == 0 {
        assert(a + b =~= a);
        assert(joined_chunks(a) + joined_chunks(b) =~= joined_chunks(a));
    } else {
        law_chunks_are_joined_in_order(a, b.drop_last());
        assert((a + b).drop_last() =~= a + b.drop_last());
        assert((a + b).last() == b.last());
        assert(joined_chunks(a + b) =~= joined_chunks(a) + joined_chunks(b));
    }
}

/// A limit that is hit ends the process: the wall clock first, then CPU time.
pub proof fn law_limit_hit_ends_the_process(
    elapsed_ns: u128,
    wall_seconds: u32,
    cpu_usage_usec: u64,
    cpu_seconds: u32,
    usage: Option<u64>,
)
    ensures
        wall_seconds > 0 && elapsed_ns >= wall_seconds * 1_000_000_000 ==> wait_action_of(
            ProcessLook::Running,
            elapsed_ns,
            wall_seconds,
            usage,
            cpu_seconds,
        ) == WaitAction::EndByWall,
        (wall_seconds == 0 || elapsed_ns < wall_seconds * 1_000_000_000) && cpu_seconds > 0
            && cpu_usage_usec >= cpu_seconds * 1_000_000 ==> wait_action_of(
            ProcessLook::Running,
            elapsed_ns,
            wall_seconds,
            Some(cpu_usage_usec),
            cpu_seconds,
        ) == WaitAction::EndByCpu,
{
}

/// The number behind a key is read from the first line that starts with it.
pub proof fn law_first_keyed_line_counts(
    before: Seq<Seq<char>>,
    key: Seq<char>,
    line: Seq<char>,
    behind: Seq<Seq<char>>,
)
    requires
        forall|i: int| 0 <= i < before.len() ==> !text::begins_with(#[trigger] before[i], key),
        text::begins_with(line, key),
    ensures
        first_keyed(before, key) == before.len(),
        first_keyed(before + seq![line] + behind, key) == before.len(),
    decreases before.len(),
{
    let all = before + seq![line] + behind;
    if before.len() == 0 {
        assert(all[0] == line);
    } else {
        assert(!text::begins_with(before[0], key));
        assert(all[0] == before[0]);
        let less = before.skip(1);
        assert forall|i: int| 0 <= i < less.len() implies !text::begins_with(
            #[trigger] less[i],
            key,
        ) by {
            assert(less[i] == before[i + 1]);
        }
        law_first_keyed_line_counts(less, key, line, behind);
        assert(all.skip(1) =~= less + seq![line] + behind);
    }
}

/// A number is read behind its key, space aside.
pub proof fn law_keyed_number_is_read(key: Seq<char>, n: nat, left: Seq<char>)
    requires
        n <= u64::MAX,
        forall|i: int| 0 <= i < left.len() ==> text::is_white(#[trigger] left[i]),
    ensures
        keyed_number(key + left + text::decimal_of(n), key) == Some(n),
{
    let d = text::decimal_of(n);
    let line = key + left + d;
    assert(line.take(key.len() as int) =~= key);
    assert(line.skip(key.len() as int) =~= left + d + Seq::<char>::empty());
    text::lemma_decimal_is_word(n, false);
    assert(!text::separates(d[0], false));
    assert(!text::separates(d[d.len() - 1], false));
    text::law_trim_takes_whitespace(left, d, Seq::empty());
    text::law_decimal_round_trip(n, u64::MAX as nat);
}

/// Any line that counts a kill counts, wherever it stands.
pub proof fn law_any_counted_kill_counts(
    before: Seq<Seq<char>>,
    line: Seq<char>,
    behind: Seq<Seq<char>>,
)
    ensures
        counts_kills(before + seq![line] + behind) <==> counts_kills(before) || counts_kills(behind)
            || (keyed_number(line, "oom_kill "@) is Some && keyed_number(line, "oom_kill "@)->0
            > 0),
        !counts_kills(Seq::empty()),
{
    let all = before + seq![line] + behind;
    let n = before.len() as int;
    assert(all[n] == line);
    if counts_kills(before) {
        let i = choose|i: int|
            0 <= i < before.len() && keyed_number(#[trigger] before[i], "oom_kill "@) is Some
                && keyed_number(before[i], "oom_kill "@)->0 > 0;
        assert(all[i] == before[i]);
    }
    if counts_kills(behind) {
        let i = choose|i: int|
            0 <= i < behind.len() && keyed_number(#[trigger] behind[i], "oom_kill "@) is Some
                && keyed_number(behind[i], "oom_kill "@)->0 > 0;
        assert(all[n + 1 + i] == behind[i]);
    }
    if counts_kills(all) {
        let i = choose|i: int|
            0 <= i < all.len() && keyed_number(#[trigger] all[i], "oom_kill "@) is Some
                && keyed_number(all[i], "oom_kill "@)->0 > 0;
        if i < n {
            assert(before[i] == all[i]);
        } else if i > n {
            assert(behind[i - n - 1] == all[i]);
        }
    }
}

/// The CPU time is what the first line under its key says, or unknown where none
/// is.
pub proof fn law_usage_is_the_keyed_line(
    stat: Seq<char>,
    before: Seq<Seq<char>>,
    line: Seq<char>,
    behind: Seq<Seq<char>>,
)
    requires
        forall|i: int|
            0 <= i < before.len() ==> !text::begins_with(#[trigger] before[i], "usage_usec "@),
        text::begins_with(line, "usage_usec "@),
    ensures
        text::lines_of(stat) == before + seq![line] + behind ==> usage_of(stat) == keyed_number(
            line,
            "usage_usec "@,
        ),
        text::lines_of(stat) == before ==> usage_of(stat) is None,
{
    law_first_keyed_line_counts(before, "usage_usec "@, line, behind);
    assert((before + seq![line] + behind)[before.len() as int] == line);
}

proof fn lemma_slashes(slashes: Seq<char>, path: Seq<char>)
    requires
        forall|i: int| 0 <= i < slashes.len() ==> #[trigger] slashes[i] == '/',
        path.len() > 0 ==> path[0] != '/',
    ensures
        without_slashes(slashes + path) == path,
    decreases slashes.len(),
{
    if slashes.len() > 0 {
        let less = slashes.skip(1);
        assert forall|i: int| 0 <= i < less.len() implies #[trigger] less[i] == '/' by {
            assert(less[i] == slashes[i + 1]);
        }
        lemma_slashes(less, path);
        assert((slashes + path).skip(1) =~= less + path);
        assert((slashes + path)[0] == slashes[0]);
    } else {
        assert(slashes + path =~= path);
    }
}

/// A process's control group is the path on the line of the unified hierarchy,
/// below the mount, without slashes at its start.
pub proof fn law_group_is_below_the_mount(
    listing: Seq<char>,
    before: Seq<Seq<char>>,
    slashes: Seq<char>,
    path: Seq<char>,
    behind: Seq<Seq<char>>,
)
    requires
        forall|i: int| 0 <= i < before.len() ==> !text::begins_with(#[trigger] before[i], "0::"@),
        forall|i: int| 0 <= i < slashes.len() ==> #[trigger] slashes[i] == '/',
        path.len() > 0 ==> path[0] != '/',
    ensures
        text::lines_of(listing) == before + seq!["0::"@ + slashes + path] + behind
            ==> cgroup_dir_of(listing) == Some("/sys/fs/cgroup/"@ + path),
        text::lines_of(listing) == before ==> cgroup_dir_of(listing) is None,
{
    let key = "0::"@;
    let line = key + slashes + path;
    assert(line.take(key.len() as int) =~= key);
    assert(line.skip(key.len() as int) =~= slashes + path);
    law_first_keyed_line_counts(before, key, line, behind);
    assert((before + seq![line] + behind)[before.len() as int] == line);
    lemma_slashes(slashes, path);
}

} // verus!
