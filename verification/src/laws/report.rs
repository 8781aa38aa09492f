use crate::entry::event_text;
use crate::interpreter::Event;
use crate::text::{decimal, digit};
use vstd::prelude::*;

verus! {

/// The number that a decimal digit stands for.
pub open spec fn digit_value(c: char) -> int {
    c as int - 48
}

/// Whether a character is a decimal digit.
pub open spec fn is_digit(c: char) -> bool {
    0 <= digit_value(c) < 10
}

/// The number that a text of decimal digits stands for.
pub open spec fn number_read(text: Seq<char>) -> int
    decreases text.len(),
{
    if text.len() == 0 {
        0
    } else {
        number_read(text.drop_last()) * 10 + digit_value(text.last())
    }
}

proof fn digit_is_one(d: int)
    requires
        0 <= d < 10,
    ensures
        digit(d).len() == 1,
        digit_value(digit(d)[0]) == d,
{
    reveal_strlit("0");
    reveal_strlit("1");
    reveal_strlit("2");
    reveal_strlit("3");
    reveal_strlit("4");
    reveal_strlit("5");
    reveal_strlit("6");
    reveal_strlit("7");
    reveal_strlit("8");
    reveal_strlit("9");
}

/// A number is written in decimal digits that read as the number, the
/// first of which is zero only where it is the only one.
pub proof fn written_number_reads_back(n: nat)
    ensures
        decimal(n).len() > 0,
        forall|k: int| 0 <= k < decimal(n).len() ==> is_digit(#[trigger] decimal(n)[k]),
        number_read(decimal(n)) == n,
        decimal(n).len() > 1 ==> digit_value(decimal(n)[0]) > 0,
        n > 0 ==> digit_value(decimal(n)[0]) > 0,
    decreases n,
{
    let last = (n % 10) as int;
    digit_is_one(last);
    if n < 10 {
        let text = decimal(n);
        assert(text == digit(n as int));
        assert(text.drop_last() =~= Seq::empty());
        assert(number_read(text.drop_last()) == 0);
    } else {
        written_number_reads_back(n / 10);
        let text = decimal(n);
        assert(text == decimal(n / 10) + digit(last));
        assert(text.drop_last() =~= decimal(n / 10));
        assert(text.last() == digit(last)[0]);
        assert(text[0] == decimal(n / 10)[0]);
        assert forall|k: int| 0 <= k < text.len() implies is_digit(#[trigger] text[k]) by {
            if k < decimal(n / 10).len() {
                assert(text[k] == decimal(n / 10)[k]);
            }
        }
    }
}

/// An event is written as what happened, a colon, and the number of what
/// it happened to.
pub proof fn event_tells_what_and_to_what(event: Event)
    ensures
        event matches Event::Call(item) ==> event_text(event) == "call:"@ + decimal(item.0 as nat),
        event matches Event::Drop(resource) ==> event_text(event) == "drop:"@ + decimal(
            resource.0 as nat,
        ),
{
    reveal_strlit("");
    match event {
        Event::Call(item) => {
            assert(event_text(event) =~= "call:"@ + decimal(item.0 as nat));
        },
        Event::Drop(resource) => {
            assert(event_text(event) =~= "drop:"@ + decimal(resource.0 as nat));
        },
    }
}

} // verus!
