//! How far a CBOR data item reaches in the bytes that hold it.
//!
//! Bytes from elsewhere can announce more than they hold. Only bytes whose announcements fit are
//! decoded.

use vstd::prelude::*;

verus! {

/// The number that bytes write down, most significant byte first.
pub open spec fn be_value(bytes: Seq<u8>) -> nat
    decreases bytes.len(),
{
    if bytes.len() == 0 {
        0
    } else {
        256 * be_value(bytes.drop_last()) + bytes.last() as nat
    }
}

/// The number in the head of a data item, and where the head ends.
pub open spec fn head(bytes: Seq<u8>, at: int) -> Option<(nat, int)> {
    let low = bytes[at] % 32;
    let width: int = if low == 24 {
        1
    } else if low == 25 {
        2
    } else if low == 26 {
        4
    } else {
        8
    };
    if low < 24 {
        Some((low as nat, at + 1))
    } else if low > 27 || at + 1 + width > bytes.len() {
        None
    } else {
        Some((be_value(bytes.subrange(at + 1, at + 1 + width)), at + 1 + width))
    }
}

/// Where the data item that starts at `at` ends, if all of it is there.
pub open spec fn item_end(bytes: Seq<u8>, at: int) -> Option<int>
    decreases bytes.len() - at, 0int, 0int,
{
    if at < 0 || at >= bytes.len() {
        None
    } else {
        let byte = bytes[at];
        let major = byte / 32;
        if byte == 0x9f || byte == 0xbf {
            // A list or a map that goes on up to a break.
            break_end(bytes, at + 1)
        } else if byte == 0xd8 {
            // A tag, and the item that it is about.
            if at + 1 >= bytes.len() {
                None
            } else {
                item_end(bytes, at + 2)
            }
        } else if major < 6 {
            match head(bytes, at) {
                Some((number, next)) => if major < 2 {
                    // A number.
                    Some(next)
                } else if number > bytes.len() {
                    None
                } else if major < 4 {
                    // Bytes or text.
                    if next + number > bytes.len() {
                        None
                    } else {
                        Some(next + number)
                    }
                } else if major == 4 {
                    // A list.
                    items_end(bytes, next, number)
                } else {
                    // A map.
                    items_end(bytes, next, 2 * number)
                },
                None => None,
            }
        } else if 0xf4 <= byte <= 0xf7 {
            Some(at + 1)
        } else if byte == 0xfa && at + 5 <= bytes.len() {
            Some(at + 5)
        } else if byte == 0xfb && at + 9 <= bytes.len() {
            Some(at + 9)
        } else {
            None
        }
    }
}

/// Where the last of `count` data items ends, the first of which starts at `at`.
pub open spec fn items_end(bytes: Seq<u8>, at: int, count: nat) -> Option<int>
    decreases bytes.len() - at, 1int, count as int,
{
    if count == 0 {
        Some(at)
    } else {
        match item_end(bytes, at) {
            Some(next) => if at < next <= bytes.len() {
                items_end(bytes, next, (count - 1) as nat)
            } else {
                None
            },
            None => None,
        }
    }
}

/// Where the break ends that data items from `at` on go up to.
pub open spec fn break_end(bytes: Seq<u8>, at: int) -> Option<int>
    decreases bytes.len() - at, 1int, 0int,
{
    if at < 0 || at >= bytes.len() {
        None
    } else if bytes[at] == 0xff {
        Some(at + 1)
    } else {
        match item_end(bytes, at) {
            Some(next) => if at < next <= bytes.len() {
                break_end(bytes, next)
            } else {
                None
            },
            None => None,
        }
    }
}

/// Whether bytes start with a data item that is all there.
pub open spec fn fits(bytes: Seq<u8>) -> bool {
    item_end(bytes, 0) is Some
}

/// A data item takes at least one byte, and ends in the bytes.
proof fn lemma_item_end(bytes: Seq<u8>, at: int)
    ensures
        item_end(bytes, at) matches Some(end) ==> at < end <= bytes.len(),
    decreases bytes.len() - at, 0int, 0int,
{
    if 0 <= at < bytes.len() {
        let byte = bytes[at];
        let major = byte / 32;
        if byte == 0x9f || byte == 0xbf {
            lemma_break_end(bytes, at + 1);
        } else if byte == 0xd8 {
            if at + 1 < bytes.len() {
                lemma_item_end(bytes, at + 2);
            }
        } else if major < 6 {
            match head(bytes, at) {
                Some((number, next)) => {
                    lemma_items_end(bytes, next, number);
                    lemma_items_end(bytes, next, 2 * number);
                },
                None => {},
            }
        }
    }
}

/// Data items end where they start, or later, and in the bytes.
proof fn lemma_items_end(bytes: Seq<u8>, at: int, count: nat)
    ensures
        items_end(bytes, at, count) matches Some(end) ==> at <= end && (at <= bytes.len() ==> end
            <= bytes.len()),
    decreases bytes.len() - at, 1int, count as int,
{
    if count > 0 {
        match item_end(bytes, at) {
            Some(next) => {
                if at < next <= bytes.len() {
                    lemma_items_end(bytes, next, (count - 1) as nat);
                }
            },
            None => {},
        }
    }
}

/// A break ends after what it breaks, and in the bytes.
proof fn lemma_break_end(bytes: Seq<u8>, at: int)
    ensures
        break_end(bytes, at) matches Some(end) ==> at < end <= bytes.len(),
    decreases bytes.len() - at, 1int, 0int,
{
    if 0 <= at < bytes.len() && bytes[at] != 0xff {
        match item_end(bytes, at) {
            Some(next) => {
                if at < next <= bytes.len() {
                    lemma_break_end(bytes, next);
                }
            },
            None => {},
        }
    }
}

/// Reads the head of the data item at `at`.
fn read_head(bytes: &[u8], at: usize) -> (read: Option<(u64, usize)>)
    requires
        at < bytes@.len(),
    ensures
        match head(bytes@, at as int) {
            Some((number, next)) => read matches Some((n, e)) && n == number && e == next && next
                <= bytes@.len(),
            None => read is None,
        },
{
    let low: u8 = bytes[at] % 32;
    if low < 24 {
        return Some((low as u64, at + 1));
    }
    if low > 27 {
        return None;
    }
    let width: usize = if low == 24 {
        1
    } else if low == 25 {
        2
    } else if low == 26 {
        4
    } else {
        8
    };
    let len: usize = bytes.len();
    if len - at - 1 < width {
        return None;
    }
    let ghost part = bytes@.subrange(at + 1, at + 1 + width);
    let mut number: u64 = 0;
    let mut i: usize = 0;
    proof {
        lemma_powers();
    }
    while i < width
        invariant
            i <= width <= 8,
            at + 1 + width <= len,
            len == bytes@.len(),
            part == bytes@.subrange(at + 1, at + 1 + width),
            number == be_value(part.take(i as int)),
            number < power_of_256(i as nat),
            power_of_256(8) == 0x1_0000_0000_0000_0000,
        decreases width - i,
    {
        proof {
            assert(part.take(i + 1).drop_last() =~= part.take(i as int));
            lemma_power_step(i as nat);
            lemma_power_grows((i + 1) as nat, 8);
        }
        number = number * 256 + bytes[at + 1 + i] as u64;
        i += 1;
    }
    assert(part.take(width as int) =~= part);
    Some((number, at + 1 + width))
}

/// The number of values that some bytes can take.
spec fn power_of_256(count: nat) -> nat
    decreases count,
{
    if count == 0 {
        1
    } else {
        256 * power_of_256((count - 1) as nat)
    }
}

proof fn lemma_powers()
    ensures
        power_of_256(0) == 1,
        power_of_256(8) == 0x1_0000_0000_0000_0000,
{
    reveal_with_fuel(power_of_256, 9);
}

proof fn lemma_power_step(count: nat)
    ensures
        power_of_256((count + 1) as nat) == 256 * power_of_256(count),
{
}

proof fn lemma_power_grows(small: nat, large: nat)
    requires
        small <= large,
    ensures
        power_of_256(small) <= power_of_256(large),
    decreases large - small,
{
    if small < large {
        lemma_power_grows(small, (large - 1) as nat);
    }
}

/// What is still to come of a list or a map: so many data items, or all up to a break.
enum Pending {
    Items(u128),
    Break,
}

/// Where what is still to come ends, from `at` on.
spec fn pending_end(bytes: Seq<u8>, at: int, pending: Pending) -> Option<int> {
    match pending {
        Pending::Items(count) => items_end(bytes, at, count as nat),
        Pending::Break => break_end(bytes, at),
    }
}

/// Where the outermost of the lists and maps that are still open at `at` ends. The last one in
/// `open` is the innermost.
spec fn open_end(bytes: Seq<u8>, at: int, open: Seq<Pending>) -> Option<int>
    decreases open.len(),
{
    if open.len() == 0 {
        Some(at)
    } else {
        match pending_end(bytes, at, open.last()) {
            Some(next) => open_end(bytes, next, open.drop_last()),
            None => None,
        }
    }
}

/// The innermost list or map ends first, and the others from there on.
proof fn lemma_innermost(bytes: Seq<u8>, at: int, outer: Seq<Pending>, pending: Pending)
    ensures
        open_end(bytes, at, outer.push(pending)) == (match pending_end(bytes, at, pending) {
            Some(next) => open_end(bytes, next, outer),
            None => None,
        }),
{
    assert(outer.push(pending).drop_last() =~= outer);
}

/// How a data item starts: all of it up to an end, or the start of what is in it.
enum Start {
    Whole(usize),
    Open(usize, Pending),
}

/// Where a data item ends that starts like this.
spec fn start_end(bytes: Seq<u8>, start: Start) -> Option<int> {
    match start {
        Start::Whole(end) => Some(end as int),
        Start::Open(at, pending) => pending_end(bytes, at as int, pending),
    }
}

/// Reads how the data item at `at` starts.
fn read_start(bytes: &[u8], at: usize) -> (start: Option<Start>)
    ensures
        match start {
            Some(start) => {
                &&& item_end(bytes@, at as int) == start_end(bytes@, start)
                &&& match start {
                    Start::Whole(next) | Start::Open(next, _) => at < next <= bytes@.len(),
                }
            },
            None => item_end(bytes@, at as int) is None,
        },
{
    let len: usize = bytes.len();
    if at >= len {
        return None;
    }
    let byte: u8 = bytes[at];
    let major: u8 = byte / 32;
    if byte == 0x9f || byte == 0xbf {
        Some(Start::Open(at + 1, Pending::Break))
    } else if byte == 0xd8 {
        if at + 1 >= len {
            None
        } else {
            proof {
                lemma_item_end(bytes@, at + 2);
                lemma_one_item(bytes@, at + 2);
            }
            Some(Start::Open(at + 2, Pending::Items(1)))
        }
    } else if major < 6 {
        match read_head(bytes, at) {
            Some((number, next)) => {
                if major < 2 {
                    Some(Start::Whole(next))
                } else if number > len as u64 {
                    None
                } else if major < 4 {
                    if number as usize > len - next {
                        None
                    } else {
                        Some(Start::Whole(next + number as usize))
                    }
                } else if major == 4 {
                    Some(Start::Open(next, Pending::Items(number as u128)))
                } else {
                    Some(Start::Open(next, Pending::Items(2 * number as u128)))
                }
            },
            None => None,
        }
    } else if 0xf4 <= byte && byte <= 0xf7 {
        Some(Start::Whole(at + 1))
    } else if byte == 0xfa && len - at >= 5 {
        Some(Start::Whole(at + 5))
    } else if byte == 0xfb && len - at >= 9 {
        Some(Start::Whole(at + 9))
    } else {
        None
    }
}

/// One data item ends where it ends.
proof fn lemma_one_item(bytes: Seq<u8>, at: int)
    ensures
        items_end(bytes, at, 1) == item_end(bytes, at),
{
    lemma_item_end(bytes, at);
    match item_end(bytes, at) {
        Some(next) => {
            assert(items_end(bytes, next, 0) == Some(next));
        },
        None => {},
    }
}

/// Tells whether bytes start with a data item that is all there.
///
/// Lists and maps that are open are kept in a list, so that it takes no more of the stack to go
/// deeper.
pub fn check(bytes: &[u8]) -> (fit: bool)
    ensures
        fit == fits(bytes@),
{
    let mut open: Vec<Pending> = Vec::new();
    proof {
        lemma_one_item(bytes@, 0);
        lemma_innermost(bytes@, 0, open@, Pending::Items(1));
    }
    open.push(Pending::Items(1));
    let mut next: usize = 0;
    while open.len() > 0
        invariant
            fits(bytes@) == open_end(bytes@, next as int, open@) is Some,
            next <= bytes@.len(),
        decreases bytes@.len() - next, open@.len(),
    {
        let ghost before = open@;
        let innermost = match open.pop() {
            Some(pending) => pending,
            None => {
                return true;
            },
        };
        let ghost outer = open@;
        proof {
            assert(before =~= outer.push(innermost));
            lemma_innermost(bytes@, next as int, outer, innermost);
            lemma_item_end(bytes@, next as int);
        }
        let rest = match innermost {
            Pending::Items(count) => if count == 0 {
                continue;
            } else {
                Pending::Items((count - 1) as u128)
            },
            Pending::Break => if next < bytes.len() && bytes[next] == 0xff {
                next += 1;
                continue;
            } else {
                Pending::Break
            },
        };
        let start = match read_start(bytes, next) {
            Some(start) => start,
            None => {
                return false;
            },
        };
        proof {
            // What is still to come goes on where the data item ends.
            match start_end(bytes@, start) {
                Some(end) => {
                    lemma_innermost(bytes@, end, outer, rest);
                },
                None => {},
            }
        }
        open.push(rest);
        match start {
            Start::Whole(end) => {
                next = end;
            },
            Start::Open(inner, pending) => {
                proof {
                    lemma_innermost(bytes@, inner as int, open@, pending);
                }
                open.push(pending);
                next = inner;
            },
        }
    }
    true
}

/// The head of a data item is the same with other bytes around it.
proof fn lemma_head_elsewhere(before: Seq<u8>, bytes: Seq<u8>, behind: Seq<u8>, at: int)
    requires
        0 <= at < bytes.len(),
    ensures
        head(bytes, at) matches Some((number, next)) ==> head(
            before + bytes + behind,
            before.len() + at,
        ) == Some((number, before.len() + next)),
{
    let all = before + bytes + behind;
    assert(all[before.len() + at] == bytes[at]);
    match head(bytes, at) {
        Some((number, next)) => {
            if bytes[at] % 32 >= 24 {
                assert(all.subrange(before.len() + at + 1, before.len() + next) =~= bytes.subrange(
                    at + 1,
                    next,
                ));
            }
        },
        None => {},
    }
}

/// A data item reaches as far with other bytes around it.
proof fn lemma_item_elsewhere(before: Seq<u8>, bytes: Seq<u8>, behind: Seq<u8>, at: int)
    ensures
        item_end(bytes, at) matches Some(end) ==> item_end(
            before + bytes + behind,
            before.len() + at,
        ) == Some(before.len() + end),
    decreases bytes.len() - at, 0int, 0int,
{
    if 0 <= at < bytes.len() {
        let all = before + bytes + behind;
        assert(all[before.len() + at] == bytes[at]);
        lemma_head_elsewhere(before, bytes, behind, at);
        let byte = bytes[at];
        if byte == 0x9f || byte == 0xbf {
            lemma_break_elsewhere(before, bytes, behind, at + 1);
        } else if byte == 0xd8 {
            if at + 1 < bytes.len() {
                lemma_item_elsewhere(before, bytes, behind, at + 2);
            }
        } else if byte / 32 < 6 {
            match head(bytes, at) {
                Some((number, next)) => {
                    lemma_items_elsewhere(before, bytes, behind, next, number);
                    lemma_items_elsewhere(before, bytes, behind, next, 2 * number);
                },
                None => {},
            }
        }
    }
}

/// Data items reach as far with other bytes around them.
proof fn lemma_items_elsewhere(
    before: Seq<u8>,
    bytes: Seq<u8>,
    behind: Seq<u8>,
    at: int,
    count: nat,
)
    ensures
        items_end(bytes, at, count) matches Some(end) ==> items_end(
            before + bytes + behind,
            before.len() + at,
            count,
        ) == Some(before.len() + end),
    decreases bytes.len() - at, 1int, count as int,
{
    if count > 0 {
        lemma_item_elsewhere(before, bytes, behind, at);
        match item_end(bytes, at) {
            Some(next) => {
                if at < next <= bytes.len() {
                    lemma_items_elsewhere(before, bytes, behind, next, (count - 1) as nat);
                }
            },
            None => {},
        }
    }
}

/// A break is found as far away with other bytes around.
proof fn lemma_break_elsewhere(before: Seq<u8>, bytes: Seq<u8>, behind: Seq<u8>, at: int)
    ensures
        break_end(bytes, at) matches Some(end) ==> break_end(
            before + bytes + behind,
            before.len() + at,
        ) == Some(before.len() + end),
    decreases bytes.len() - at, 1int, 0int,
{
    if 0 <= at < bytes.len() {
        assert((before + bytes + behind)[before.len() + at] == bytes[at]);
        if bytes[at] != 0xff {
            lemma_item_elsewhere(before, bytes, behind, at);
            match item_end(bytes, at) {
                Some(next) => {
                    if at < next <= bytes.len() {
                        lemma_break_elsewhere(before, bytes, behind, next);
                    }
                },
                None => {},
            }
        }
    }
}

/// Whether bytes are one data item and nothing else.
pub open spec fn is_item(bytes: Seq<u8>) -> bool {
    item_end(bytes, 0) == Some(bytes.len() as int)
}

/// Bytes that start with a data item fit, whatever follows it. A data item that is cut short does
/// not.
pub proof fn law_item_fits_if_all_of_it_is_there(item: Seq<u8>, behind: Seq<u8>, cut: int)
    requires
        is_item(item),
        0 <= cut < item.len(),
    ensures
        fits(item + behind),
        !fits(item.take(cut)),
{
    let none: Seq<u8> = Seq::empty();
    lemma_item_elsewhere(none, item, behind, 0);
    assert(none + item + behind =~= item + behind);
    let start = item.take(cut);
    lemma_item_end(start, 0);
    lemma_item_elsewhere(none, start, item.skip(cut), 0);
    assert(none + start + item.skip(cut) =~= item);
}

/// Data items one behind the other.
pub open spec fn joined(items: Seq<Seq<u8>>) -> Seq<u8>
    decreases items.len(),
{
    if items.len() == 0 {
        Seq::empty()
    } else {
        items[0] + joined(items.drop_first())
    }
}

/// As many data items as there are end where the bytes behind a head end.
proof fn lemma_joined(before: Seq<u8>, items: Seq<Seq<u8>>, behind: Seq<u8>)
    requires
        forall|i: int| 0 <= i < items.len() ==> is_item(#[trigger] items[i]),
    ensures
        items.len() <= joined(items).len(),
        items_end(before + joined(items) + behind, before.len() as int, items.len()) == Some(
            (before.len() + joined(items).len()) as int,
        ),
    decreases items.len(),
{
    let all = before + joined(items) + behind;
    if items.len() > 0 {
        let rest = items.drop_first();
        assert forall|i: int| 0 <= i < rest.len() implies is_item(#[trigger] rest[i]) by {
            assert(rest[i] == items[i + 1]);
        }
        lemma_item_end(items[0], 0);
        lemma_joined(before + items[0], rest, behind);
        lemma_item_elsewhere(before, items[0], joined(rest) + behind, 0);
        assert(before + items[0] + (joined(rest) + behind) =~= all);
        assert((before + items[0]) + joined(rest) + behind =~= all);
    }
}

/// A break behind data items ends where it is.
proof fn lemma_joined_break(before: Seq<u8>, items: Seq<Seq<u8>>)
    requires
        forall|i: int| 0 <= i < items.len() ==> is_item(#[trigger] items[i]),
    ensures
        break_end(before + joined(items) + seq![0xffu8], before.len() as int) == Some(
            (before.len() + joined(items).len() + 1) as int,
        ),
    decreases items.len(),
{
    let end = seq![0xffu8];
    let all = before + joined(items) + end;
    if items.len() == 0 {
        assert(all[before.len() as int] == 0xff);
    } else {
        let rest = items.drop_first();
        assert forall|i: int| 0 <= i < rest.len() implies is_item(#[trigger] rest[i]) by {
            assert(rest[i] == items[i + 1]);
        }
        lemma_item_end(items[0], 0);
        lemma_joined_break(before + items[0], rest);
        lemma_item_elsewhere(before, items[0], joined(rest) + end, 0);
        assert(before + items[0] + (joined(rest) + end) =~= all);
        assert((before + items[0]) + joined(rest) + end =~= all);
        assert(all[before.len() as int] == items[0][0]);
    }
}

/// Every list, and every map, of data items is one, be their number announced or a break at the
/// end. So is a tag with a data item behind it.
pub proof fn law_list_of_items_is_an_item(start: Seq<u8>, items: Seq<Seq<u8>>, count: nat, tag: u8)
    requires
        start.len() > 0,
        head(start, 0) == Some((count, start.len() as int)),
        forall|i: int| 0 <= i < items.len() ==> is_item(#[trigger] items[i]),
    ensures
        start[0] / 32 == 4 && items.len() == count ==> is_item(start + joined(items)),
        start[0] / 32 == 5 && items.len() == 2 * count ==> is_item(start + joined(items)),
        is_item(seq![0x9fu8] + joined(items) + seq![0xffu8]),
        is_item(seq![0xbfu8] + joined(items) + seq![0xffu8]),
        items.len() == 1 ==> is_item(seq![0xd8u8, tag] + items[0]),
{
    let none: Seq<u8> = Seq::empty();
    lemma_joined(start, items, none);
    lemma_head_elsewhere(none, start, joined(items), 0);
    assert(none + start + joined(items) =~= start + joined(items));
    assert(start + joined(items) + none =~= start + joined(items));
    lemma_joined_break(seq![0x9fu8], items);
    lemma_joined_break(seq![0xbfu8], items);
    if items.len() == 1 {
        let tagged = seq![0xd8u8, tag];
        lemma_item_elsewhere(tagged, items[0], none, 0);
        assert(tagged + items[0] + none =~= tagged + items[0]);
        lemma_item_end(items[0], 0);
        assert((tagged + items[0])[0] == 0xd8);
    }
}

/// Every number is a data item, and so are bytes and text behind their length, the four simple
/// values, and floating-point numbers of four and of eight bytes.
pub proof fn law_plain_values_are_items(start: Seq<u8>, content: Seq<u8>, number: nat)
    requires
        start.len() > 0,
        head(start, 0) == Some((number, start.len() as int)),
    ensures
        start[0] / 32 < 2 ==> is_item(start),
        2 <= start[0] / 32 < 4 && content.len() == number ==> is_item(start + content),
        forall|byte: u8| 0xf4 <= byte <= 0xf7 ==> is_item(#[trigger] seq![byte]),
        content.len() == 4 ==> is_item(seq![0xfau8] + content),
        content.len() == 8 ==> is_item(seq![0xfbu8] + content),
{
    let none: Seq<u8> = Seq::empty();
    lemma_head_elsewhere(none, start, content, 0);
    assert(none + start + content =~= start + content);
    assert((seq![0xfau8] + content)[0] == 0xfa);
    assert((seq![0xfbu8] + content)[0] == 0xfb);
}

} // verus!
