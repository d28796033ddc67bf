use vstd::prelude::*;

verus! {

/// A user row as it is inserted into storage.
#[derive(Debug, Clone, PartialEq, Eq)]
pub struct InsertUser {
    pub uuid: String,
    pub name: String,
    pub slug: String,
    pub email: String,
    pub admin: bool,
    pub locked: bool,
}

impl InsertUser {
    /// A signup becomes a fresh row: never an administrator and never
    /// locked; every other field is carried as given.
    pub fn new(uuid: String, name: String, slug: String, email: String) -> (r: InsertUser)
        ensures
            r.uuid == uuid,
            r.name == name,
            r.slug == slug,
            r.email == email,
            !r.admin,
            !r.locked,
    {
        InsertUser { uuid, name, slug, email, admin: false, locked: false }
    }
}

/// A user row as it is read back from storage.
#[derive(Debug, Clone, PartialEq, Eq)]
pub struct QueryUser {
    pub id: i32,
    pub uuid: String,
    pub name: String,
    pub slug: String,
    pub email: String,
    pub admin: bool,
    pub locked: bool,
}

/// The user as the interface returns it: the internal row id is dropped.
#[derive(Debug, Clone, PartialEq, Eq)]
pub struct JsonUser {
    pub uuid: String,
    pub name: String,
    pub slug: String,
    pub email: String,
    pub admin: bool,
    pub locked: bool,
}

impl QueryUser {
    /// Repacks a stored row for the interface once its identifier has been
    /// checked: exactly the rows with a sound identifier come through, with
    /// every field but the row id carried unchanged.
    pub fn into_json(self, uuid_ok: bool) -> (r: Option<JsonUser>)
        ensures
            r is Some <==> uuid_ok,
            r matches Some(j) ==> j == (JsonUser {
                uuid: self.uuid,
                name: self.name,
                slug: self.slug,
                email: self.email,
                admin: self.admin,
                locked: self.locked,
            }),
    {
        if uuid_ok {
            let QueryUser { id: _, uuid, name, slug, email, admin, locked } = self;
            Some(JsonUser { uuid, name, slug, email, admin, locked })
        } else {
            None
        }
    }
}

} // verus!
