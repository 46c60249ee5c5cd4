//! The account list: credential records and the operations on the list.
use vstd::prelude::*;

verus! {

/// An account's display name, base-32 secret and issuer label.
#[derive(Debug, Clone)]
pub struct Account {
    pub name: String,
    pub secret: String,
    pub issuer: String,
}

impl View for Account {
    /// `(name, secret, issuer)`.
    type V = (Seq<char>, Seq<char>, Seq<char>);

    open spec fn view(&self) -> (Seq<char>, Seq<char>, Seq<char>) {
        (self.name@, self.secret@, self.issuer@)
    }
}

/// The stored accounts, in the order in which they were added.
pub struct Config {
    pub accounts: Vec<Account>,
}

impl View for Config {
    type V = Seq<(Seq<char>, Seq<char>, Seq<char>)>;

    open spec fn view(&self) -> Seq<(Seq<char>, Seq<char>, Seq<char>)> {
        self.accounts@.map_values(|a: Account| a@)
    }
}

/// Whether an account view does not carry the name `name`.
pub open spec fn other_name(name: Seq<char>) -> spec_fn((Seq<char>, Seq<char>, Seq<char>)) -> bool {
    |a: (Seq<char>, Seq<char>, Seq<char>)| a.0 != name
}

/// Appends an account to the list.
pub fn add_account(config: &mut Config, name: String, secret: String, issuer: String)
    ensures
        final(config)@ == old(config)@.push((name@, secret@, issuer@)),
{
    let ghost before = config.accounts@;
    config.accounts.push(Account { name, secret, issuer });
    assert(config.accounts@.map_values(|a: Account| a@) =~= before.map_values(|a: Account| a@).push(
        (name@, secret@, issuer@),
    ));
}

/// Removes every account named `name`; the others keep their order.
pub fn delete_account(config: &mut Config, name: String)
    ensures
        final(config)@ == old(config)@.filter(other_name(name@)),
{
    let ghost start = config@;
    let ghost n = start.len();
    let ghost p = other_name(name@);
    let mut i: usize = 0;
    let ghost mut k: int = 0;
    proof {
        reveal(Seq::filter);
        assert(start.subrange(0, 0).filter(p) =~= Seq::empty());
        assert(config@ =~= start.subrange(0, 0).filter(p) + start.subrange(0, n as int));
    }
    while i < config.accounts.len()
        invariant
            0 <= k <= n == start.len(),
            p == other_name(name@),
            i == start.subrange(0, k).filter(p).len(),
            config@ == start.subrange(0, k).filter(p) + start.subrange(k, n as int),
        decreases n - k,
    {
        let ghost cur = config@;
        let ghost kept = start.subrange(0, k).filter(p);
        assert(config@[i as int] == config.accounts@[i as int]@);
        assert(cur[i as int] == start[k]);
        proof {
            reveal(Seq::filter);
            assert(start.subrange(0, k + 1).drop_last() =~= start.subrange(0, k));
        }
        if config.accounts[i].name == name {
            config.accounts.remove(i);
            proof {
                assert(config@ =~= cur.remove(i as int));
                assert(cur.remove(i as int) =~= kept + start.subrange(k + 1, n as int));
                k = k + 1;
            }
        } else {
            proof {
                assert(cur =~= kept.push(start[k]) + start.subrange(k + 1, n as int));
                k = k + 1;
            }
            i += 1;
        }
    }
    proof {
        assert(start.subrange(0, n as int) =~= start);
        assert(start.subrange(k, n as int).len() == 0);
        assert(config@ =~= start.subrange(0, k).filter(p));
    }
}

} // verus!
