//! The history database, as far as the core decides anything about it:
//! where it is opened, and how a stored health check reads.

use vstd::prelude::*;
use vstd::string::{StrSliceExecFns, StringExecFns};

verus! {

/// A path with every backslash turned into a slash.
pub open spec fn normalized(path: Seq<char>) -> Seq<char> {
    Seq::new(
        path.len(),
        |i: int|
            if path[i] == '\\' {
                '/'
            } else {
                path[i]
            },
    )
}

/// The address under which the database at `path` is opened: for reading
/// and writing, and created where it does not exist.
pub open spec fn connection_of(path: Seq<char>) -> Seq<char> {
    "sqlite:"@ + normalized(path) + "?mode=rwc"@
}

/// The address under which the database at `db_path` is opened.
pub fn connection_string(db_path: &str) -> (address: String)
    ensures
        address@ == connection_of(db_path@),
{
    let mut address = String::from_str("sqlite:");
    let count = db_path.unicode_len();
    let mut i: usize = 0;
    proof {
        reveal_strlit("/");
        assert(address@ =~= "sqlite:"@ + normalized(db_path@).take(0));
    }
    while i < count
        invariant
            i <= count,
            count == db_path@.len(),
            "/"@ == seq!['/'],
            address@ == "sqlite:"@ + normalized(db_path@).take(i as int),
        decreases count - i,
    {
        let ghost before = address@;
        if db_path.get_char(i) == '\\' {
            address.append("/");
        } else {
            address.append(db_path.substring_char(i, i + 1));
        }
        proof {
            assert(db_path@.subrange(i as int, i + 1) =~= seq![db_path@[i as int]]);
            assert(normalized(db_path@).take(i + 1) =~= normalized(db_path@).take(i as int).push(
                normalized(db_path@)[i as int],
            ));
            assert(address@ =~= "sqlite:"@ + normalized(db_path@).take(i + 1));
        }
        i += 1;
    }
    proof {
        assert(normalized(db_path@).take(i as int) =~= normalized(db_path@));
    }
    address.append("?mode=rwc");
    address
}

/// The number that stands for a check's status in the database.
pub fn status_column(status: bool) -> (column: i32)
    ensures
        column == if status {
            1i32
        } else {
            0i32
        },
{
    if status {
        1
    } else {
        0
    }
}

/// A stored health check as the core reads it: the check passed unless the
/// status column is zero, and a missing message is the empty one.
pub fn health_row(status: i32, message: Option<String>) -> (row: (bool, String))
    ensures
        row.0 == (status != 0),
        match message {
            Some(text) => row.1 == text,
            None => row.1@ == Seq::<char>::empty(),
        },
{
    match message {
        Some(text) => (status != 0, text),
        None => (status != 0, String::new()),
    }
}

} // verus!
