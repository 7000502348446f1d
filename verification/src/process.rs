//! Process trees: who descends from whom, and in which order a tree is taken down.
use crate::text;
use vstd::prelude::*;
use vstd::string::*;

verus! {

/// A character that separates words, as Unicode defines white space.
pub open spec fn is_space(c: char) -> bool {
    ||| '\u{9}' <= c && c <= '\u{d}'
    ||| c == ' '
    ||| c == '\u{85}'
    ||| c == '\u{a0}'
    ||| c == '\u{1680}'
    ||| '\u{2000}' <= c && c <= '\u{200a}'
    ||| c == '\u{2028}'
    ||| c == '\u{2029}'
    ||| c == '\u{202f}'
    ||| c == '\u{205f}'
    ||| c == '\u{3000}'
}

/// Whether a character separates words.
fn space(c: char) -> (found: bool)
    ensures
        found == is_space(c),
{
    ('\u{9}' <= c && c <= '\u{d}') || c == ' ' || c == '\u{85}' || c == '\u{a0}' || c == '\u{1680}'
        || ('\u{2000}' <= c && c <= '\u{200a}') || c == '\u{2028}' || c == '\u{2029}' || c == '\u{202f}'
        || c == '\u{205f}' || c == '\u{3000}'
}

/// The words of a text: its longest pieces without white space.
pub open spec fn words(text: Seq<char>) -> Seq<Seq<char>>
    decreases text.len(),
{
    if text.len() == 0 {
        Seq::empty()
    } else {
        let front = text.drop_last();
        let earlier = words(front);
        if is_space(text.last()) {
            earlier
        } else if front.len() == 0 || is_space(front.last()) {
            earlier.push(seq![text.last()])
        } else {
            earlier.drop_last().push(earlier.last().push(text.last()))
        }
    }
}

/// What follows the last occurrence of a character, where there is one.
pub open spec fn after_last(text: Seq<char>, mark: char) -> Option<Seq<char>>
    decreases text.len(),
{
    if text.len() == 0 {
        None
    } else if text.last() == mark {
        Some(Seq::empty())
    } else {
        match after_last(text.drop_last(), mark) {
            Some(rest) => Some(rest.push(text.last())),
            None => None,
        }
    }
}

/// A decimal digit.
pub open spec fn is_digit(c: char) -> bool {
    '0' <= c && c <= '9'
}

/// The number that a sequence of digits writes down.
pub open spec fn digits_value(digits: Seq<char>) -> nat
    decreases digits.len(),
{
    if digits.len() == 0 {
        0
    } else {
        (digits_value(digits.drop_last()) * 10 + (digits.last() as int - '0' as int)) as nat
    }
}

/// The digits of a number that may have a plus sign.
pub open spec fn unsigned(text: Seq<char>) -> Seq<char> {
    if text.len() > 0 && text[0] == '+' {
        text.drop_first()
    } else {
        text
    }
}

/// The process id that a text writes down: digits, with or without a plus sign before them.
pub open spec fn pid_of(text: Seq<char>) -> Option<u32> {
    let digits = unsigned(text);
    if digits.len() > 0 && (forall|i: int| 0 <= i < digits.len() ==> is_digit(#[trigger] digits[i]))
        && digits_value(digits) <= u32::MAX {
        Some(digits_value(digits) as u32)
    } else {
        None
    }
}

/// The parent in the status line of a process: the second word after the name, which stands in
/// brackets and may hold spaces and brackets itself.
pub open spec fn parent_of(stat: Seq<char>) -> Option<u32> {
    match after_last(stat, ')') {
        Some(rest) => if words(rest).len() > 1 {
            pid_of(words(rest)[1])
        } else {
            None
        },
        None => None,
    }
}

proof fn lemma_digits_grow(digits: Seq<char>, n: int)
    requires
        0 <= n <= digits.len(),
        forall|i: int| 0 <= i < digits.len() ==> is_digit(#[trigger] digits[i]),
    ensures
        digits_value(digits.take(n)) <= digits_value(digits),
    decreases digits.len() - n,
{
    if n == digits.len() {
        assert(digits.take(n) =~= digits);
    } else {
        lemma_digits_grow(digits, n + 1);
        let more = digits.take(n + 1);
        assert(more.drop_last() =~= digits.take(n));
        assert(is_digit(digits[n]));
    }
}

/// The process id that a text writes down.
pub fn parse_pid(content: &str) -> (pid: Option<u32>)
    ensures
        pid == pid_of(content@),
{
    let chars: Vec<char> = text::chars_of(content);
    let start: usize = if chars.len() > 0 && chars[0] == '+' {
        1
    } else {
        0
    };
    let ghost digits = unsigned(content@);
    proof {
        assert(digits =~= chars@.skip(start as int));
    }
    if start == chars.len() {
        return None;
    }
    let mut value: u64 = 0;
    let mut i: usize = start;
    proof {
        assert(digits.take(0) =~= Seq::<char>::empty());
    }
    while i < chars.len()
        invariant
            start <= i <= chars.len(),
            start <= 1,
            digits == unsigned(content@),
            digits == chars@.skip(start as int),
            value == digits_value(digits.take(i - start)),
            value <= u32::MAX,
            forall|j: int| 0 <= j < i - start ==> is_digit(#[trigger] digits[j]),
        decreases chars.len() - i,
    {
        let c: char = chars[i];
        proof {
            assert(digits[i - start] == c);
        }
        if c < '0' || c > '9' {
            proof {
                assert(!is_digit(digits[i - start]));
            }
            return None;
        }
        let digit: u64 = (c as u8 - 48u8) as u64;
        value = value * 10 + digit;
        proof {
            let more = digits.take(i - start + 1);
            assert(more.drop_last() =~= digits.take(i - start));
            assert(more.last() == c);
        }
        if value > u32::MAX as u64 {
            proof {
                if forall|j: int| 0 <= j < digits.len() ==> is_digit(#[trigger] digits[j]) {
                    lemma_digits_grow(digits, i - start + 1);
                }
            }
            return None;
        }
        i = i + 1;
    }
    proof {
        assert(digits.take(i - start) =~= digits);
    }
    Some(value as u32)
}

/// What follows the last occurrence of a character, where there is one.
fn rest_after(content: &str, mark: char) -> (rest: Option<String>)
    ensures
        text::opt_view(rest) == after_last(content@, mark),
{
    let mut found: bool = false;
    let mut rest: String = String::new();
    for c in it: content.chars()
        invariant
            it.seq() == content@,
            after_last(it.seq().take(it.index()), mark) == (if found {
                Some(rest@)
            } else {
                None
            }),
    {
        proof {
            let more = it.seq().take(it.index() + 1);
            assert(more.drop_last() =~= it.seq().take(it.index()));
            assert(more.last() == c);
        }
        if c == mark {
            found = true;
            rest = String::new();
        } else if found {
            rest.push(c);
        }
    }
    proof {
        assert(content@.take(content@.len() as int) =~= content@);
    }
    if found {
        Some(rest)
    } else {
        None
    }
}

/// The second word of a text, where there is one.
fn second_word(content: &str) -> (word: Option<String>)
    ensures
        text::opt_view(word) == (if words(content@).len() > 1 {
            Some(words(content@)[1])
        } else {
            None
        }),
{
    let mut word: String = String::new();
    // How many words have begun, where more than two count as three.
    let mut seen: usize = 0;
    let mut inside: bool = false;
    for c in it: content.chars()
        invariant
            it.seq() == content@,
            seen <= 3,
            seen < 3 ==> words(it.seq().take(it.index())).len() == seen,
            seen == 3 ==> words(it.seq().take(it.index())).len() >= 3,
            inside == (it.index() > 0 && !is_space(it.seq().take(it.index()).last())),
            inside ==> seen >= 1,
            seen < 2 ==> word@ == Seq::<char>::empty(),
            seen >= 2 ==> words(it.seq().take(it.index()))[1] == word@,
    {
        proof {
            let more = it.seq().take(it.index() + 1);
            assert(more.drop_last() =~= it.seq().take(it.index()));
            assert(more.last() == c);
        }
        if space(c) {
            inside = false;
        } else {
            if !inside && seen < 3 {
                seen = seen + 1;
            }
            inside = true;
            if seen == 2 {
                let ghost before = word@;
                word.push(c);
                proof {
                    assert(Seq::<char>::empty().push(c) =~= seq![c]);
                }
            }
        }
    }
    proof {
        assert(content@.take(content@.len() as int) =~= content@);
    }
    if seen >= 2 {
        Some(word)
    } else {
        None
    }
}

/// The parent in the status line of a process.
pub fn parse_ppid(stat: &str) -> (parent: Option<u32>)
    ensures
        parent == parent_of(stat@),
{
    match rest_after(stat, ')') {
        Some(rest) => match second_word(rest.as_str()) {
            Some(word) => parse_pid(word.as_str()),
            None => None,
        },
        None => None,
    }
}

/// A process and its parent.
#[derive(Debug, Clone, Copy, PartialEq, Eq, Structural)]
pub struct Process {
    pub pid: u32,
    pub parent: u32,
}

/// The snapshot lists `child` as a child of `parent`.
pub open spec fn is_child(processes: Seq<Process>, child: u32, parent: u32) -> bool {
    processes.contains(Process { pid: child, parent })
}

/// A way down from `root`, from each process to one of its children.
pub open spec fn is_lineage(processes: Seq<Process>, root: u32, line: Seq<u32>) -> bool {
    &&& line.len() > 0
    &&& line[0] == root
    &&& forall|i: int| 0 < i < line.len() ==> is_child(processes, #[trigger] line[i], line[i - 1])
}

/// The process is `root` or descends from it.
pub open spec fn descends(processes: Seq<Process>, root: u32, pid: u32) -> bool {
    exists|line: Seq<u32>| #[trigger] is_lineage(processes, root, line) && line.last() == pid
}

/// No process is listed twice.
pub open spec fn is_snapshot(processes: Seq<Process>) -> bool {
    forall|i: int, j: int|
        0 <= i < j < processes.len() ==> (#[trigger] processes[i]).pid != (
        #[trigger] processes[j]).pid
}

/// The children of a process in the order of the snapshot, without `root`.
pub open spec fn children(processes: Seq<Process>, root: u32, parent: u32) -> Seq<u32>
    decreases processes.len(),
{
    if processes.len() == 0 {
        Seq::empty()
    } else {
        let earlier = children(processes.drop_last(), root, parent);
        let last = processes.last();
        if last.parent == parent && last.pid != root {
            earlier.push(last.pid)
        } else {
            earlier
        }
    }
}

/// The tree below `pid` has at most `height` generations, `pid` included.
pub open spec fn is_tree(processes: Seq<Process>, root: u32, pid: u32, height: nat) -> bool
    decreases height,
{
    height > 0 && forall|i: int|
        0 <= i < children(processes, root, pid).len() ==> is_tree(
            processes,
            root,
            #[trigger] children(processes, root, pid)[i],
            (height - 1) as nat,
        )
}

/// The trees below a list of processes, one after the other, each with its root last and its
/// children in the order of the snapshot.
pub open spec fn leaves_first(
    processes: Seq<Process>,
    root: u32,
    pids: Seq<u32>,
    height: nat,
) -> Seq<u32>
    decreases height, pids.len(),
{
    if pids.len() == 0 || height == 0 {
        Seq::empty()
    } else {
        leaves_first(processes, root, pids.drop_last(), height) + leaves_first(
            processes,
            root,
            children(processes, root, pids.last()),
            (height - 1) as nat,
        ).push(pids.last())
    }
}

/// A list with or without its last item.
pub open spec fn with_or_without_last(list: Seq<u32>, whole: bool) -> Seq<u32> {
    if whole {
        list
    } else {
        list.drop_last()
    }
}

/// The process is a child of one of the first `n` in a list.
pub open spec fn is_child_among(processes: Seq<Process>, pid: u32, list: Seq<u32>, n: int) -> bool {
    exists|j: int| 0 <= j < n && is_child(processes, pid, #[trigger] list[j])
}

/// What holds while a tree is walked: `order` are the processes that were visited, in that order,
/// and `stack` are those to visit.
spec fn walking(processes: Seq<Process>, root: u32, order: Seq<u32>, stack: Seq<u32>) -> bool {
    &&& order.no_duplicates()
    &&& order.len() == 0 ==> stack == seq![root]
    &&& order.len() > 0 ==> order[0] == root
    &&& forall|i: int| 0 <= i < order.len() ==> descends(processes, root, #[trigger] order[i])
    &&& forall|i: int| 0 <= i < stack.len() ==> descends(processes, root, #[trigger] stack[i])
    &&& forall|i: int, c: u32|
        0 <= i < order.len() && #[trigger] is_child(processes, c, order[i]) && c != root
            ==> order.contains(c) || stack.contains(c)
    &&& forall|i: int|
        1 <= i < order.len() ==> is_child_among(processes, #[trigger] order[i], order, i)
    &&& forall|i: int|
        0 <= i < stack.len() && order.len() > 0 ==> #[trigger] stack[i] != root && is_child_among(
            processes,
            stack[i],
            order,
            order.len() as int,
        )
}

/// Nothing is to be visited twice.
spec fn is_single(order: Seq<u32>, stack: Seq<u32>) -> bool {
    &&& stack.no_duplicates()
    &&& forall|i: int| 0 <= i < stack.len() ==> !order.contains(#[trigger] stack[i])
}

proof fn lemma_children(processes: Seq<Process>, root: u32, parent: u32)
    ensures
        forall|c: u32|
            #[trigger] children(processes, root, parent).contains(c) <==> is_child(
                processes,
                c,
                parent,
            ) && c != root,
    decreases processes.len(),
{
    if processes.len() > 0 {
        let front = processes.drop_last();
        let last = processes.last();
        lemma_children(front, root, parent);
        let all = children(processes, root, parent);
        let some = children(front, root, parent);
        assert forall|c: u32| #[trigger] all.contains(c) <==> is_child(processes, c, parent) && c
            != root by {
            let process = Process { pid: c, parent };
            if is_child(processes, c, parent) && c != root {
                let k = choose|k: int| 0 <= k < processes.len() && processes[k] == process;
                if k < front.len() {
                    assert(front[k] == process);
                    assert(some.contains(c));
                    let i = choose|i: int| 0 <= i < some.len() && some[i] == c;
                    assert(all[i] == c);
                } else {
                    assert(all[all.len() - 1] == c);
                }
            }
            if all.contains(c) {
                let i = choose|i: int| 0 <= i < all.len() && all[i] == c;
                if i < some.len() {
                    assert(some[i] == c);
                    assert(some.contains(c));
                    let k = choose|k: int| 0 <= k < front.len() && front[k] == process;
                    assert(processes[k] == process);
                } else {
                    assert(processes[processes.len() - 1] == process);
                }
            }
        }
    }
}

proof fn lemma_children_are_distinct(processes: Seq<Process>, root: u32, parent: u32)
    requires
        is_snapshot(processes),
    ensures
        children(processes, root, parent).no_duplicates(),
    decreases processes.len(),
{
    if processes.len() > 0 {
        let front = processes.drop_last();
        let last = processes.last();
        lemma_children_are_distinct(front, root, parent);
        lemma_children(front, root, parent);
        let some = children(front, root, parent);
        if last.parent == parent && last.pid != root && some.contains(last.pid) {
            let k = choose|k: int|
                0 <= k < front.len() && front[k] == (Process { pid: last.pid, parent });
            assert(processes[k].pid == processes[processes.len() - 1].pid);
        }
    }
}

proof fn lemma_child_descends(processes: Seq<Process>, root: u32, child: u32, parent: u32)
    requires
        descends(processes, root, parent),
        is_child(processes, child, parent),
    ensures
        descends(processes, root, child),
{
    let line = choose|line: Seq<u32>| #[trigger]
        is_lineage(processes, root, line) && line.last() == parent;
    assert(is_lineage(processes, root, line.push(child)));
    assert(line.push(child).last() == child);
}

proof fn lemma_walk_starts(processes: Seq<Process>, root: u32)
    ensures
        walking(processes, root, Seq::empty(), seq![root]),
{
    assert(is_lineage(processes, root, seq![root]));
    assert(seq![root].last() == root);
}

proof fn lemma_walk_skips(processes: Seq<Process>, root: u32, order: Seq<u32>, stack: Seq<u32>)
    requires
        walking(processes, root, order, stack),
        stack.len() > 0,
        order.contains(stack.last()),
    ensures
        walking(processes, root, order, stack.drop_last()),
{
    let rest = stack.drop_last();
    assert forall|i: int, c: u32|
        0 <= i < order.len() && #[trigger] is_child(processes, c, order[i]) && c
            != root implies order.contains(c) || rest.contains(c) by {
        if !order.contains(c) {
            let k = choose|k: int| 0 <= k < stack.len() && stack[k] == c;
            assert(rest[k] == c);
        }
    }
}

proof fn lemma_walk_visits(processes: Seq<Process>, root: u32, order: Seq<u32>, stack: Seq<u32>)
    requires
        walking(processes, root, order, stack),
        stack.len() > 0,
        !order.contains(stack.last()),
    ensures
        walking(
            processes,
            root,
            order.push(stack.last()),
            stack.drop_last() + children(processes, root, stack.last()),
        ),
{
    let pid = stack.last();
    let rest = stack.drop_last();
    let kids = children(processes, root, pid);
    let visited = order.push(pid);
    let waiting = rest + kids;
    let n = order.len() as int;
    lemma_children(processes, root, pid);
    assert(stack[stack.len() - 1] == pid);
    assert forall|i: int| 0 <= i < waiting.len() implies descends(
        processes,
        root,
        #[trigger] waiting[i],
    ) by {
        if i < rest.len() {
            assert(waiting[i] == stack[i]);
        } else {
            assert(kids.contains(kids[i - rest.len()]));
            lemma_child_descends(processes, root, waiting[i], pid);
        }
    }
    assert forall|i: int, c: u32|
        0 <= i < visited.len() && #[trigger] is_child(processes, c, visited[i]) && c
            != root implies visited.contains(c) || waiting.contains(c) by {
        if i < n {
            assert(is_child(processes, c, order[i]));
            if order.contains(c) {
                let k = choose|k: int| 0 <= k < order.len() && order[k] == c;
                assert(visited[k] == c);
            } else {
                let k = choose|k: int| 0 <= k < stack.len() && stack[k] == c;
                if k < rest.len() {
                    assert(waiting[k] == c);
                } else {
                    assert(visited[n] == c);
                }
            }
        } else {
            assert(kids.contains(c));
            let k = choose|k: int| 0 <= k < kids.len() && kids[k] == c;
            assert(waiting[rest.len() + k] == c);
        }
    }
    assert forall|i: int| 1 <= i < visited.len() implies is_child_among(
        processes,
        #[trigger] visited[i],
        visited,
        i,
    ) by {
        if i < n {
            assert(visited[i] == order[i]);
            assert(is_child_among(processes, order[i], order, i));
            let j = choose|j: int| 0 <= j < i && is_child(processes, order[i], #[trigger] order[j]);
            assert(visited[j] == order[j]);
        } else {
            assert(is_child_among(processes, stack[stack.len() - 1], order, n));
            let j = choose|j: int| 0 <= j < n && is_child(processes, pid, #[trigger] order[j]);
            assert(visited[j] == order[j]);
        }
    }
    assert forall|i: int| 0 <= i < waiting.len() implies #[trigger] waiting[i] != root
        && is_child_among(processes, waiting[i], visited, visited.len() as int) by {
        if i < rest.len() {
            assert(waiting[i] == stack[i]);
            assert(n > 0);
            let j = choose|j: int| 0 <= j < n && is_child(processes, stack[i], #[trigger] order[j]);
            assert(visited[j] == order[j]);
        } else {
            assert(kids.contains(kids[i - rest.len()]));
            assert(is_child(processes, waiting[i], visited[n]));
        }
    }
}

proof fn lemma_walk_stays_single(
    processes: Seq<Process>,
    root: u32,
    order: Seq<u32>,
    stack: Seq<u32>,
)
    requires
        walking(processes, root, order, stack),
        is_single(order, stack),
        is_snapshot(processes),
        stack.len() > 0,
    ensures
        is_single(
            order.push(stack.last()),
            stack.drop_last() + children(processes, root, stack.last()),
        ),
{
    let pid = stack.last();
    let rest = stack.drop_last();
    let kids = children(processes, root, pid);
    let visited = order.push(pid);
    let waiting = rest + kids;
    assert(stack[stack.len() - 1] == pid);
    lemma_children(processes, root, pid);
    lemma_children_are_distinct(processes, root, pid);
    assert forall|k: int| 0 <= k < kids.len() implies !order.contains(#[trigger] kids[k])
        && !stack.contains(kids[k]) by {
        let c = kids[k];
        assert(kids.contains(c));
        if order.contains(c) {
            let i = choose|i: int| 0 <= i < order.len() && order[i] == c;
            assert(i >= 1);
            assert(is_child_among(processes, order[i], order, i));
            let j = choose|j: int| 0 <= j < i && is_child(processes, c, #[trigger] order[j]);
            lemma_one_parent(processes, c, pid, order[j]);
            assert(order.contains(pid));
        }
        if stack.contains(c) {
            let i = choose|i: int| 0 <= i < stack.len() && stack[i] == c;
            if order.len() > 0 {
                assert(is_child_among(processes, stack[i], order, order.len() as int));
                let j = choose|j: int|
                    0 <= j < order.len() && is_child(processes, c, #[trigger] order[j]);
                lemma_one_parent(processes, c, pid, order[j]);
                assert(order.contains(pid));
            }
        }
    }
    assert forall|i: int, j: int| 0 <= i < j < waiting.len() implies waiting[i] != waiting[j] by {
        if j < rest.len() {
            assert(stack[i] != stack[j]);
        } else if i >= rest.len() {
            assert(kids[i - rest.len()] != kids[j - rest.len()]);
        } else {
            assert(stack.contains(stack[i]));
            assert(!stack.contains(kids[j - rest.len()]));
        }
    }
    assert forall|i: int| 0 <= i < waiting.len() implies !visited.contains(
        #[trigger] waiting[i],
    ) by {
        if i < rest.len() {
            assert(!order.contains(stack[i]));
            assert(stack[i] != stack[stack.len() - 1]);
        } else {
            assert(!order.contains(kids[i - rest.len()]));
            assert(stack.contains(pid));
        }
    }
}

proof fn lemma_one_parent(processes: Seq<Process>, child: u32, a: u32, b: u32)
    requires
        is_snapshot(processes),
        is_child(processes, child, a),
        is_child(processes, child, b),
    ensures
        a == b,
{
    let i = choose|i: int| 0 <= i < processes.len() && processes[i] == (Process { pid: child, parent: a });
    let j = choose|j: int| 0 <= j < processes.len() && processes[j] == (Process { pid: child, parent: b });
    assert(processes[i].pid == processes[j].pid);
}

proof fn lemma_walk_is_bounded(processes: Seq<Process>, root: u32, order: Seq<u32>, stack: Seq<u32>)
    requires
        walking(processes, root, order, stack),
    ensures
        order.len() <= processes.len() + 1,
{
    let pids = processes.map_values(|process: Process| process.pid);
    let all = pids.push(root);
    assert forall|i: int| 0 <= i < order.len() implies all.contains(#[trigger] order[i]) by {
        if i == 0 {
            assert(all[processes.len() as int] == root);
        } else {
            assert(is_child_among(processes, order[i], order, i));
            let j = choose|j: int| 0 <= j < i && is_child(processes, order[i], #[trigger] order[j]);
            let process = Process { pid: order[i], parent: order[j] };
            let k = choose|k: int| 0 <= k < processes.len() && processes[k] == process;
            assert(all[k] == order[i]);
        }
    }
    lemma_distinct_among(order, all);
}

proof fn lemma_walk_is_complete(processes: Seq<Process>, root: u32, order: Seq<u32>, pid: u32)
    requires
        walking(processes, root, order, Seq::empty()),
    ensures
        order.contains(pid) <==> descends(processes, root, pid),
{
    assert(order.len() > 0) by {
        if order.len() == 0 {
            assert(Seq::<u32>::empty().len() == seq![root].len());
        }
    }
    if descends(processes, root, pid) {
        let line = choose|line: Seq<u32>| #[trigger]
            is_lineage(processes, root, line) && line.last() == pid;
        lemma_lineage_is_visited(processes, root, order, line, line.len() - 1);
    }
}

proof fn lemma_lineage_is_visited(
    processes: Seq<Process>,
    root: u32,
    order: Seq<u32>,
    line: Seq<u32>,
    n: int,
)
    requires
        walking(processes, root, order, Seq::empty()),
        order.len() > 0,
        is_lineage(processes, root, line),
        0 <= n < line.len(),
    ensures
        order.contains(line[n]),
    decreases n,
{
    if n == 0 {
        assert(order[0] == root);
    } else {
        lemma_lineage_is_visited(processes, root, order, line, n - 1);
        let i = choose|i: int| 0 <= i < order.len() && order[i] == line[n - 1];
        assert(is_child(processes, line[n], order[i]));
        if line[n] == root {
            assert(order[0] == root);
        }
    }
}

proof fn lemma_leaves_first_add(
    processes: Seq<Process>,
    root: u32,
    a: Seq<u32>,
    b: Seq<u32>,
    height: nat,
)
    ensures
        leaves_first(processes, root, a + b, height) == leaves_first(processes, root, a, height)
            + leaves_first(processes, root, b, height),
    decreases b.len(),
{
    if b.len() == 0 {
        assert(a + b =~= a);
        assert(leaves_first(processes, root, a, height) + leaves_first(processes, root, b, height)
            =~= leaves_first(processes, root, a, height));
    } else {
        assert((a + b).drop_last() =~= a + b.drop_last());
        lemma_leaves_first_add(processes, root, a, b.drop_last(), height);
        assert(leaves_first(processes, root, a + b, height) =~= leaves_first(
            processes,
            root,
            a,
            height,
        ) + leaves_first(processes, root, b, height));
    }
}

proof fn lemma_taller_tree(processes: Seq<Process>, root: u32, pid: u32, height: nat)
    requires
        is_tree(processes, root, pid, height),
    ensures
        is_tree(processes, root, pid, height + 1),
    decreases height,
{
    assert forall|i: int| 0 <= i < children(processes, root, pid).len() implies is_tree(
        processes,
        root,
        #[trigger] children(processes, root, pid)[i],
        height,
    ) by {
        lemma_taller_tree(
            processes,
            root,
            children(processes, root, pid)[i],
            (height - 1) as nat,
        );
    }
}

proof fn lemma_height_is_enough(processes: Seq<Process>, root: u32, pids: Seq<u32>, height: nat)
    requires
        forall|i: int|
            0 <= i < pids.len() ==> is_tree(processes, root, #[trigger] pids[i], height),
    ensures
        leaves_first(processes, root, pids, height) == leaves_first(
            processes,
            root,
            pids,
            height + 1,
        ),
    decreases height, pids.len(),
{
    if pids.len() > 0 {
        let front = pids.drop_last();
        assert(is_tree(processes, root, pids[pids.len() - 1], height));
        assert forall|i: int| 0 <= i < front.len() implies is_tree(
            processes,
            root,
            #[trigger] front[i],
            height,
        ) by {
            assert(front[i] == pids[i]);
        }
        lemma_height_is_enough(processes, root, front, height);
        lemma_height_is_enough(
            processes,
            root,
            children(processes, root, pids.last()),
            (height - 1) as nat,
        );
    }
}

/// One step of a walk moves a process from the list of those to visit to the end of the result.
proof fn lemma_leaves_first_step(
    processes: Seq<Process>,
    root: u32,
    order: Seq<u32>,
    stack: Seq<u32>,
    height: nat,
)
    requires
        stack.len() > 0,
        forall|i: int|
            0 <= i < stack.len() ==> is_tree(processes, root, #[trigger] stack[i], height),
    ensures
        ({
            let waiting = stack.drop_last() + children(processes, root, stack.last());
            &&& forall|i: int|
                0 <= i < waiting.len() ==> is_tree(processes, root, #[trigger] waiting[i], height)
            &&& leaves_first(processes, root, waiting, height) + order.push(stack.last()).reverse()
                == leaves_first(processes, root, stack, height) + order.reverse()
        }),
{
    let pid = stack.last();
    let rest = stack.drop_last();
    let kids = children(processes, root, pid);
    let waiting = rest + kids;
    let lower = (height - 1) as nat;
    assert(is_tree(processes, root, stack[stack.len() - 1], height));
    assert forall|i: int| 0 <= i < kids.len() implies is_tree(
        processes,
        root,
        #[trigger] kids[i],
        height,
    ) by {
        lemma_taller_tree(processes, root, kids[i], lower);
    }
    assert forall|i: int| 0 <= i < waiting.len() implies is_tree(
        processes,
        root,
        #[trigger] waiting[i],
        height,
    ) by {
        if i < rest.len() {
            assert(waiting[i] == stack[i]);
        } else {
            assert(waiting[i] == kids[i - rest.len()]);
        }
    }
    lemma_height_is_enough(processes, root, kids, lower);
    lemma_leaves_first_add(processes, root, rest, kids, height);
    assert(order.push(pid).reverse() =~= seq![pid] + order.reverse());
    assert(leaves_first(processes, root, waiting, height) + order.push(pid).reverse()
        =~= leaves_first(processes, root, stack, height) + order.reverse());
}

/// A way down from `root` that does not come back to it holds no process twice.
proof fn lemma_lineages_do_not_repeat(
    processes: Seq<Process>,
    root: u32,
    line: Seq<u32>,
    i: int,
    j: int,
)
    requires
        is_snapshot(processes),
        is_lineage(processes, root, line),
        forall|k: int| 0 < k < line.len() ==> #[trigger] line[k] != root,
        0 <= i < j < line.len(),
    ensures
        line[i] != line[j],
    decreases i,
{
    if i > 0 && line[i] == line[j] {
        assert(is_child(processes, line[i], line[i - 1]));
        assert(is_child(processes, line[j], line[j - 1]));
        lemma_one_parent(processes, line[i], line[i - 1], line[j - 1]);
        lemma_lineages_do_not_repeat(processes, root, line, i - 1, j - 1);
    }
}

/// A way down from `root` that does not come back to it is no longer than the snapshot allows.
proof fn lemma_lineages_are_bounded(processes: Seq<Process>, root: u32, line: Seq<u32>)
    requires
        is_snapshot(processes),
        is_lineage(processes, root, line),
        forall|k: int| 0 < k < line.len() ==> #[trigger] line[k] != root,
    ensures
        line.len() <= processes.len() + 1,
{
    let all = processes.map_values(|process: Process| process.pid).push(root);
    assert forall|i: int, j: int| 0 <= i < j < line.len() implies line[i] != line[j] by {
        lemma_lineages_do_not_repeat(processes, root, line, i, j);
    }
    assert forall|i: int| 0 <= i < line.len() implies all.contains(#[trigger] line[i]) by {
        if i == 0 {
            assert(all[processes.len() as int] == root);
        } else {
            let process = Process { pid: line[i], parent: line[i - 1] };
            assert(is_child(processes, line[i], line[i - 1]));
            let k = choose|k: int| 0 <= k < processes.len() && processes[k] == process;
            assert(all[k] == line[i]);
        }
    }
    lemma_distinct_among(line, all);
}

/// A list without duplicates is no longer than a list that holds all its items.
proof fn lemma_distinct_among(list: Seq<u32>, all: Seq<u32>)
    requires
        list.no_duplicates(),
        forall|i: int| 0 <= i < list.len() ==> all.contains(#[trigger] list[i]),
    ensures
        list.len() <= all.len(),
{
    list.unique_seq_to_set();
    all.lemma_cardinality_of_set();
    assert(list.to_set().subset_of(all.to_set())) by {
        assert forall|x: u32| list.to_set().contains(x) implies all.to_set().contains(x) by {
            let i = choose|i: int| 0 <= i < list.len() && list[i] == x;
            assert(all.contains(list[i]));
        }
    }
    vstd::set_lib::lemma_len_subset(list.to_set(), all.to_set());
}

proof fn lemma_snapshot_below(processes: Seq<Process>, root: u32, line: Seq<u32>, height: nat)
    requires
        is_snapshot(processes),
        is_lineage(processes, root, line),
        forall|k: int| 0 < k < line.len() ==> #[trigger] line[k] != root,
        line.len() + height == processes.len() + 2,
    ensures
        is_tree(processes, root, line.last(), height),
    decreases height,
{
    let pid = line.last();
    lemma_lineages_are_bounded(processes, root, line);
    lemma_children(processes, root, pid);
    assert forall|i: int| 0 <= i < children(processes, root, pid).len() implies is_tree(
        processes,
        root,
        #[trigger] children(processes, root, pid)[i],
        (height - 1) as nat,
    ) by {
        let child = children(processes, root, pid)[i];
        assert(children(processes, root, pid).contains(child));
        let longer = line.push(child);
        assert(is_lineage(processes, root, longer));
        lemma_lineages_are_bounded(processes, root, longer);
        lemma_snapshot_below(processes, root, longer, (height - 1) as nat);
        assert(longer.last() == child);
    }
}

/// In a snapshot the processes below any root form a tree, which has no more generations than the
/// snapshot has processes, and one for the root.
pub proof fn snapshots_are_trees(processes: Seq<Process>, root: u32)
    requires
        is_snapshot(processes),
    ensures
        is_tree(processes, root, root, processes.len() + 1),
{
    assert(is_lineage(processes, root, seq![root]));
    lemma_snapshot_below(processes, root, seq![root], processes.len() + 1);
    assert(seq![root].last() == root);
}

/// Whether a list holds a process id.
fn holds(list: &Vec<u32>, pid: u32) -> (found: bool)
    ensures
        found == list@.contains(pid),
{
    let mut i: usize = 0;
    while i < list.len()
        invariant
            i <= list.len(),
            forall|j: int| 0 <= j < i ==> list@[j] != pid,
        decreases list.len() - i,
    {
        if list[i] == pid {
            return true;
        }
        i = i + 1;
    }
    false
}

/// Appends the children of a process in the order of the snapshot, without `root`.
fn push_children(processes: &Vec<Process>, root: u32, parent: u32, stack: &mut Vec<u32>)
    ensures
        final(stack)@ == old(stack)@ + children(processes@, root, parent),
{
    let mut i: usize = 0;
    proof {
        assert(stack@ + Seq::<u32>::empty() =~= stack@);
    }
    while i < processes.len()
        invariant
            i <= processes.len(),
            stack@ == old(stack)@ + children(processes@.take(i as int), root, parent),
        decreases processes.len() - i,
    {
        proof {
            assert(processes@.take(i + 1).drop_last() =~= processes@.take(i as int));
        }
        let process: Process = processes[i];
        if process.parent == parent && process.pid != root {
            let ghost before = stack@;
            stack.push(process.pid);
            proof {
                assert(stack@ =~= old(stack)@ + children(processes@.take(i + 1), root, parent));
            }
        }
        i = i + 1;
    }
    proof {
        assert(processes@.take(processes@.len() as int) =~= processes@);
    }
}

/// The processes of the tree below `root`, each after its parent, `root` first.
fn walk(processes: &Vec<Process>, root: u32) -> (order: Vec<u32>)
    ensures
        walking(processes@, root, order@, Seq::empty()),
        is_snapshot(processes@) ==> order@.reverse() == leaves_first(
            processes@,
            root,
            seq![root],
            processes@.len() + 1,
        ),
{
    let mut order: Vec<u32> = Vec::new();
    let mut stack: Vec<u32> = Vec::new();
    stack.push(root);
    let ghost height: nat = processes@.len() + 1;
    let ghost exact: bool = is_snapshot(processes@);
    let ghost whole = leaves_first(processes@, root, seq![root], height);
    proof {
        assert(stack@ =~= seq![root]);
        assert(order@ =~= Seq::<u32>::empty());
        lemma_walk_starts(processes@, root);
        if exact {
            snapshots_are_trees(processes@, root);
        }
        assert(whole + order@.reverse() =~= whole);
    }
    while stack.len() > 0
        invariant
            walking(processes@, root, order@, stack@),
            exact == is_snapshot(processes@),
            exact ==> is_single(order@, stack@),
            exact ==> forall|i: int|
                0 <= i < stack@.len() ==> is_tree(processes@, root, #[trigger] stack@[i], height),
            exact ==> leaves_first(processes@, root, stack@, height) + order@.reverse() == whole,
        decreases processes@.len() + 1 - order@.len(), stack@.len(),
    {
        let ghost waiting = stack@;
        let ghost visited = order@;
        let pid: u32 = stack[stack.len() - 1];
        stack.pop();
        proof {
            assert(stack@ =~= waiting.drop_last());
            assert(waiting[waiting.len() - 1] == pid);
        }
        if holds(&order, pid) {
            proof {
                lemma_walk_skips(processes@, root, visited, waiting);
                lemma_walk_is_bounded(processes@, root, visited, waiting);
            }
        } else {
            order.push(pid);
            push_children(processes, root, pid, &mut stack);
            proof {
                lemma_walk_visits(processes@, root, visited, waiting);
                lemma_walk_is_bounded(processes@, root, order@, stack@);
                if exact {
                    lemma_walk_stays_single(processes@, root, visited, waiting);
                    lemma_leaves_first_step(processes@, root, visited, waiting, height);
                }
            }
        }
    }
    proof {
        assert(stack@ =~= Seq::<u32>::empty());
        assert(leaves_first(processes@, root, stack@, height) + order@.reverse()
            =~= order@.reverse());
    }
    order
}

/// The processes to kill so that nothing is left below `root`: all that descend from it, and
/// `root` itself where `include_root` is set. Every process comes before its parent, so that no
/// parent can replace a child that is already gone.
pub fn kill_order(processes: &Vec<Process>, root: u32, include_root: bool) -> (victims: Vec<u32>)
    ensures
        victims@.no_duplicates(),
        forall|pid: u32|
            #[trigger] victims@.contains(pid) <==> descends(processes@, root, pid) && (pid != root
                || include_root),
        is_snapshot(processes@) ==> forall|i: int, j: int|
            0 <= i < victims@.len() && 0 <= j < victims@.len() && victims@[i] != root && is_child(
                processes@,
                #[trigger] victims@[i],
                #[trigger] victims@[j],
            ) ==> i < j,
        is_snapshot(processes@) ==> victims@ == with_or_without_last(
            leaves_first(processes@, root, seq![root], processes@.len() + 1),
            include_root,
        ),
{
    let order: Vec<u32> = walk(processes, root);
    let ghost none = Seq::<u32>::empty();
    proof {
        if order@.len() == 0 {
            assert(none.len() == seq![root].len());
        }
    }
    let first: usize = if include_root {
        0
    } else {
        1
    };
    let mut victims: Vec<u32> = Vec::new();
    let mut i: usize = order.len();
    proof {
        assert(order@.skip(i as int).reverse() =~= none);
    }
    while i > first
        invariant
            first <= i <= order@.len(),
            first <= 1,
            victims@ == order@.skip(i as int).reverse(),
        decreases i,
    {
        i = i - 1;
        victims.push(order[i]);
        proof {
            assert(order@.skip(i as int).reverse() =~= order@.skip(i + 1).reverse().push(
                order@[i as int],
            ));
        }
    }
    proof {
        let n = order@.len() as int;
        let m = victims@.len() as int;
        assert(m == n - first);
        assert forall|k: int| 0 <= k < m implies #[trigger] victims@[k] == order@[n - 1 - k] by {}
        assert forall|pid: u32|
            #[trigger] victims@.contains(pid) <==> descends(processes@, root, pid) && (pid != root
                || include_root) by {
            lemma_walk_is_complete(processes@, root, order@, pid);
            if victims@.contains(pid) {
                let k = choose|k: int| 0 <= k < m && victims@[k] == pid;
                assert(order@[n - 1 - k] == pid);
                assert(n - 1 - k > 0 ==> order@[n - 1 - k] != order@[0]);
            }
            if descends(processes@, root, pid) && (pid != root || include_root) {
                let k = choose|k: int| 0 <= k < n && order@[k] == pid;
                assert(k >= first);
                assert(victims@[n - 1 - k] == pid);
            }
        }
        if is_snapshot(processes@) {
            assert forall|a: int, b: int|
                0 <= a < m && 0 <= b < m && victims@[a] != root && is_child(
                    processes@,
                    #[trigger] victims@[a],
                    #[trigger] victims@[b],
                ) implies a < b by {
                let k = n - 1 - a;
                assert(order@[k] == victims@[a]);
                assert(k >= 1);
                assert(is_child_among(processes@, order@[k], order@, k));
                let j = choose|j: int|
                    0 <= j < k && is_child(processes@, order@[k], #[trigger] order@[j]);
                lemma_one_parent(processes@, victims@[a], victims@[b], order@[j]);
                assert(order@[n - 1 - b] == order@[j]);
            }
        }
        assert(include_root ==> victims@ =~= order@.reverse());
        assert(!include_root ==> victims@ =~= order@.reverse().drop_last());
    }
    victims
}

} // verus!
