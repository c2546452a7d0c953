//! Issues from the issue tracker, and the footer that closes the ones chosen.
use vstd::prelude::*;
use crate::conventional_commit::{footer_views, Footer, FooterView, Separator};

verus! {

/// An open issue.
#[derive(Debug, Clone)]
pub struct Issue {
    pub title: String,
    pub number: u64,
}

impl Issue {
    /// The text shown for this issue: its title.
    pub fn label(&self) -> (r: String)
        ensures
            r@ == self.title@,
    {
        self.title.clone()
    }
}

/// The decimal digits of `n`.
pub open spec fn decimal(n: nat) -> Seq<char>
    decreases n,
{
    if n < 10 {
        seq![digit_char(n)]
    } else {
        decimal(n / 10) + seq![digit_char(n % 10)]
    }
}

pub open spec fn digit_char(d: nat) -> char {
    ((d + 48) as u32) as char
}

/// `#n` for each number, joined by `", "`.
pub open spec fn issue_refs(numbers: Seq<u64>) -> Seq<char>
    decreases numbers.len(),
{
    if numbers.len() == 0 {
        Seq::empty()
    } else if numbers.len() == 1 {
        seq!['#'] + decimal(numbers[0] as nat)
    } else {
        issue_refs(numbers.drop_last()) + seq![',', ' ', '#'] + decimal(numbers.last() as nat)
    }
}

fn digit_text(d: u64) -> (r: &'static str)
    requires
        d < 10,
    ensures
        r@ == seq![digit_char(d as nat)],
{
    proof {
        reveal_strlit("0");
        reveal_strlit("1");
        reveal_strlit("2");
        reveal_strlit("3");
        reveal_strlit("4");
        reveal_strlit("5");
        reveal_strlit("6");
        reveal_strlit("7");
        reveal_strlit("8");
        reveal_strlit("9");
    }
    let r = if d == 0 {
        "0"
    } else if d == 1 {
        "1"
    } else if d == 2 {
        "2"
    } else if d == 3 {
        "3"
    } else if d == 4 {
        "4"
    } else if d == 5 {
        "5"
    } else if d == 6 {
        "6"
    } else if d == 7 {
        "7"
    } else if d == 8 {
        "8"
    } else {
        "9"
    };
    assert(r@ =~= seq![digit_char(d as nat)]);
    r
}

/// Appends the decimal digits of `n`.
fn push_decimal(r: &mut String, n: u64)
    ensures
        final(r)@ == old(r)@ + decimal(n as nat),
    decreases n,
{
    if n < 10 {
        r.append(digit_text(n));
    } else {
        push_decimal(r, n / 10);
        r.append(digit_text(n % 10));
        assert(final(r)@ =~= old(r)@ + decimal(n as nat));
    }
}

pub open spec fn closes_token() -> Seq<char> {
    seq!['c', 'l', 'o', 's', 'e', 's']
}

/// The footers for the issues chosen: none for none, else one `closes` footer that
/// lists them.
pub fn closing_footers(chosen: &Vec<Issue>) -> (r: Vec<Footer>)
    ensures
        chosen@.len() == 0 ==> r@.len() == 0,
        chosen@.len() > 0 ==> footer_views(r@) == seq![
            FooterView {
                token: closes_token(),
                separator: Separator::Colon,
                content: issue_refs(chosen@.map_values(|i: Issue| i.number)),
            },
        ],
{
    if chosen.len() == 0 {
        return Vec::new();
    }
    let ghost numbers = chosen@.map_values(|i: Issue| i.number);
    proof {
        reveal_strlit("#");
        reveal_strlit(", #");
        reveal_strlit("closes");
    }
    let mut content = String::new();
    let mut k: usize = 0;
    while k < chosen.len()
        invariant
            0 < chosen.len(),
            k <= chosen.len(),
            numbers == chosen@.map_values(|i: Issue| i.number),
            content@ == issue_refs(numbers.subrange(0, k as int)),
        decreases chosen.len() - k,
    {
        let ghost before = content@;
        proof {
            reveal_strlit("#");
            reveal_strlit(", #");
        }
        if k == 0 {
            content.append("#");
        } else {
            content.append(", #");
        }
        push_decimal(&mut content, chosen[k].number);
        assert(numbers[k as int] == chosen@[k as int].number);
        assert(numbers.subrange(0, k + 1).drop_last() =~= numbers.subrange(0, k as int));
        assert(numbers.subrange(0, k + 1).last() == chosen@[k as int].number);
        if k == 0 {
            assert(before =~= Seq::<char>::empty());
            assert(content@ =~= seq!['#'] + decimal(chosen@[k as int].number as nat));
        } else {
            assert(content@ =~= before + seq![',', ' ', '#'] + decimal(
                chosen@[k as int].number as nat,
            ));
        }
        assert(content@ =~= issue_refs(numbers.subrange(0, k + 1)));
        k += 1;
    }
    assert(numbers.subrange(0, chosen.len() as int) =~= numbers);
    let token = String::from_str("closes");
    assert(token@ =~= closes_token());
    let footer = Footer { token, separator: Separator::Colon, content };
    let mut r = Vec::new();
    r.push(footer);
    assert(footer_views(r@) =~= seq![footer@]);
    r
}

} // verus!
