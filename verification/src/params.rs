//! Query-side data shapes: pagination and filter arguments of the token
//! endpoints, and the display rows they produce.

use vstd::prelude::*;
use vstd::string::StringSliceAdditionalSpecFns;
use crate::types::{FullHash, TokenTick};

verus! {

/// Default number of entries per page.
pub fn page_size_default() -> (r: usize)
    ensures
        r == 6,
{
    6
}

/// The first page number.
pub fn first_page() -> (r: usize)
    ensures
        r == 1,
{
    1
}

/// A ticker query is exactly four bytes long.
pub fn validate_tick(tick: &str) -> (r: Result<(), ()>)
    ensures
        r is Ok <==> tick.spec_bytes().len() == 4,
{
    if tick.as_bytes().len() == 4 {
        Ok(())
    } else {
        Err(())
    }
}

/// How a token listing is ordered.
#[derive(Clone, Copy, Debug, PartialEq, Eq, Structural)]
pub enum SortBy {
    DeployTimeAsc,
    DeployTimeDesc,
    HoldersAsc,
    HoldersDesc,
    TransactionsAsc,
    TransactionsDesc,
}

/// Which tokens a listing keeps.
#[derive(Clone, Copy, Debug, PartialEq, Eq, Structural)]
pub enum FilterBy {
    All,
    Completed,
    InProgress,
}

/// Arguments of the single-token endpoint.
#[derive(Clone, Debug)]
pub struct TokenArgs {
    pub tick: String,
}

impl TokenArgs {
    /// The ticker must be four characters.
    pub fn validate(&self) -> (r: Result<(), ()>)
        ensures
            r is Ok <==> self.tick@.len() == 4,
    {
        let n = self.tick.as_str().unicode_len();
        if n == 4 {
            Ok(())
        } else {
            Err(())
        }
    }
}

/// Arguments of the token listing endpoint.
#[derive(Clone, Debug)]
pub struct TokensArgs {
    pub page_size: usize,
    pub page: usize,
    pub sort_by: SortBy,
    pub filter_by: FilterBy,
    pub search: Option<String>,
}

impl TokensArgs {
    /// Pages are one-based and bounded; a search prefix is one to four bytes.
    pub fn validate(&self) -> (r: Result<(), ()>)
        ensures
            r is Ok <==> {
                &&& 6 <= self.page_size <= 20
                &&& self.page >= 1
                &&& match self.search {
                    Some(ref s) => 1 <= s@.len() <= 4,
                    None => true,
                }
            },
    {
        if self.page_size < 6 || self.page_size > 20 {
            return Err(());
        }
        if self.page < 1 {
            return Err(());
        }
        match &self.search {
            Some(s) => {
                let n = s.as_str().unicode_len();
                if 1 <= n && n <= 4 {
                    Ok(())
                } else {
                    Err(())
                }
            },
            None => Ok(()),
        }
    }
}

/// Arguments of the holders endpoint.
#[derive(Clone, Debug)]
pub struct Args {
    pub page_size: usize,
    pub page: usize,
    pub tick: String,
}

impl Args {
    /// Pages are one-based and bounded; the ticker must be four bytes.
    pub fn validate(&self) -> (r: Result<(), ()>)
        ensures
            r is Ok <==> {
                &&& 6 <= self.page_size <= 20
                &&& self.page >= 1
                &&& self.tick@.len() == 4
            },
    {
        if self.page_size < 6 || self.page_size > 20 {
            return Err(());
        }
        if self.page < 1 {
            return Err(());
        }
        let n = self.tick.as_str().unicode_len();
        if n == 4 {
            Ok(())
        } else {
            Err(())
        }
    }
}

/// One ranked holder of a token, as the holders endpoint reports it.
#[derive(Clone, Debug)]
pub struct Holder {
    pub rank: usize,
    pub address: String,
    pub balance: String,
    pub percent: String,
}

/// An address paired with an original-case ticker.
#[derive(Clone, Copy, Debug, PartialEq, Eq, Hash)]
pub struct AddressTick {
    pub address: FullHash,
    pub tick: TokenTick,
}

/// A history row key with its address already resolved for display.
#[derive(Clone, Debug)]
pub struct AddressTokenIdEvent {
    pub address: String,
    pub token: String,
    pub id: u64,
}

/// The display form of a history row key.
#[derive(Clone, Debug)]
pub struct AddressTokenIdRest {
    pub id: u64,
    pub address: String,
    pub tick: TokenTick,
}

/// How many pages a listing of `count` entries makes.
pub fn pages_of(count: usize, page_size: usize) -> (r: usize)
    requires
        page_size >= 1,
    ensures
        r == if count == 0 {
            0int
        } else {
            (count - 1) as int / page_size as int + 1
        },
{
    if count == 0 {
        0
    } else {
        (count - 1) / page_size + 1
    }
}

} // verus!
