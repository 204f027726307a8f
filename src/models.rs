//! Persisted records: watches and blacklist entries.

use vstd::prelude::*;

verus! {

/// A persisted watch: a saved search of one user on one delivery channel.
#[derive(Clone, Debug)]
pub struct DbVahti {
    pub id: i32,
    pub url: String,
    pub user_id: i64,
    pub last_updated: i64,
    pub site_id: i32,
    pub delivery_method: i32,
}

/// A watch to be persisted.
#[derive(Clone, Debug)]
pub struct NewVahti {
    pub url: String,
    pub user_id: i64,
    pub last_updated: i64,
    pub site_id: i32,
    pub delivery_method: i32,
}

/// A persisted blacklist entry: a seller whose listings on a site a user never gets.
#[derive(Clone, Copy, Debug)]
pub struct Blacklist {
    pub id: i64,
    pub user_id: i64,
    pub seller_id: i32,
    pub site_id: i32,
}

/// A blacklist entry to be persisted.
#[derive(Clone, Copy, Debug)]
pub struct NewBlacklist {
    pub user_id: i64,
    pub seller_id: i32,
    pub site_id: i32,
}

impl DbVahti {
    /// A copy of this record.
    pub fn duplicate(&self) -> (r: DbVahti)
        ensures
            r == *self,
    {
        DbVahti {
            id: self.id,
            url: self.url.clone(),
            user_id: self.user_id,
            last_updated: self.last_updated,
            site_id: self.site_id,
            delivery_method: self.delivery_method,
        }
    }
}

impl NewVahti {
    /// The record of a new watch, first considered up to date at `now`.
    pub fn new(url: String, user_id: i64, site_id: i32, delivery_method: i32, now: i64) -> (r: NewVahti)
        ensures
            r == (NewVahti { url, user_id, last_updated: now, site_id, delivery_method }),
    {
        NewVahti { url, user_id, last_updated: now, site_id, delivery_method }
    }
}

} // verus!
