use vstd::prelude::*;

verus! {

/// The ways a request can fail.
#[derive(Clone, Debug)]
pub enum AppError {
    /// The request body was malformed: messages grouped by field.
    BadRequest { errors: Vec<(String, Vec<String>)> },
    /// The referenced sheet or cell does not exist.
    NotFound,
    /// The database failed; the text is for the log only.
    Database(String),
    /// An internal consistency check failed.
    InternalServerError,
}

/// The messages given for field `key`, in the order given.
pub open spec fn messages_for(errors: Seq<(String, String)>, key: Seq<char>) -> Seq<Seq<char>>
    decreases errors.len(),
{
    if errors.len() == 0 {
        Seq::empty()
    } else if errors.last().0@ == key {
        messages_for(errors.drop_last(), key).push(errors.last().1@)
    } else {
        messages_for(errors.drop_last(), key)
    }
}

/// The text of each message of a group.
pub open spec fn texts(msgs: Seq<String>) -> Seq<Seq<char>> {
    msgs.map_values(|m: String| m@)
}

/// Some entry of `errors` before position `end` names field `key`.
pub open spec fn names_field(errors: Seq<(String, String)>, end: int, key: Seq<char>) -> bool {
    exists|t: int| 0 <= t < end && #[trigger] errors[t].0@ == key
}

/// Some group is for field `key`.
pub open spec fn has_group(groups: Seq<(String, Vec<String>)>, key: Seq<char>) -> bool {
    exists|a: int| 0 <= a < groups.len() && #[trigger] groups[a].0@ == key
}

/// `groups` holds one group per field named in `errors`, in the order in
/// which the fields first appear, each with all of that field's messages
/// in the order given.
pub open spec fn groups_messages(groups: Seq<(String, Vec<String>)>, errors: Seq<(String, String)>) -> bool {
    &&& forall|a: int, b: int| 0 <= a < b < groups.len() ==> groups[a].0@ != groups[b].0@
    &&& forall|a: int|
        0 <= a < groups.len() ==> texts(#[trigger] groups[a].1@) == messages_for(errors, groups[a].0@)
            && names_field(errors, errors.len() as int, groups[a].0@)
    &&& forall|t: int| 0 <= t < errors.len() ==> has_group(groups, #[trigger] errors[t].0@)
}

impl AppError {
    /// A `BadRequest` from (field, message) pairs, grouped by field.
    pub fn process_bad_request(errors: Vec<(String, String)>) -> (r: AppError)
        ensures
            r matches AppError::BadRequest { errors: g } && groups_messages(g@, errors@),
    {
        let n = errors.len();
        let mut groups: Vec<(String, Vec<String>)> = Vec::new();
        let mut i: usize = 0;
        while i < n
            invariant
                n == errors@.len(),
                i <= n,
                forall|a: int, b: int| 0 <= a < b < groups@.len() ==> groups@[a].0@ != groups@[b].0@,
                forall|a: int|
                    0 <= a < groups@.len() ==> texts(#[trigger] groups@[a].1@) == messages_for(errors@, groups@[a].0@)
                        && names_field(errors@, i as int, groups@[a].0@),
                forall|t: int| 0 <= t < i ==> has_group(groups@, #[trigger] errors@[t].0@),
            decreases n - i,
        {
            let ghost old_groups = groups@;
            let mut seen = false;
            let mut j: usize = 0;
            while j < i
                invariant
                    n == errors@.len(),
                    j <= i < n,
                    seen <==> names_field(errors@, j as int, errors@[i as int].0@),
                decreases i - j,
            {
                if errors[j].0 == errors[i].0 {
                    seen = true;
                }
                j = j + 1;
            }
            if !seen {
                let ghost key = errors@[i as int].0@;
                let mut msgs: Vec<String> = Vec::new();
                let mut t: usize = 0;
                while t < n
                    invariant
                        n == errors@.len(),
                        i < n,
                        key == errors@[i as int].0@,
                        t <= n,
                        texts(msgs@) == messages_for(errors@.take(t as int), key),
                    decreases n - t,
                {
                    proof {
                        assert(errors@.take(t + 1).drop_last() == errors@.take(t as int));
                    }
                    if errors[t].0 == errors[i].0 {
                        msgs.push(errors[t].1.clone());
                        assert(texts(msgs@) =~= messages_for(errors@.take(t + 1), key));
                    } else {
                        assert(texts(msgs@) =~= messages_for(errors@.take(t + 1), key));
                    }
                    t = t + 1;
                }
                assert(errors@.take(n as int) == errors@);
                proof {
                    assert forall|a: int| 0 <= a < groups@.len() implies groups@[a].0@ != key by {
                        assert(texts(groups@[a].1@) == messages_for(errors@, groups@[a].0@));
                        if groups@[a].0@ == key {
                            let w = choose|w: int| 0 <= w < i && #[trigger] errors@[w].0@ == groups@[a].0@;
                            assert(names_field(errors@, i as int, key));
                        }
                    }
                }
                groups.push((errors[i].0.clone(), msgs));
            }
            proof {
                let g = groups@;
                assert forall|a: int| 0 <= a < g.len() implies names_field(errors@, i + 1, #[trigger] g[a].0@) by {
                    if a < old_groups.len() {
                        assert(g[a] == old_groups[a]);
                        assert(texts(old_groups[a].1@) == messages_for(errors@, old_groups[a].0@));
                    }
                    if names_field(errors@, i as int, g[a].0@) {
                        let w = choose|w: int| 0 <= w < i && #[trigger] errors@[w].0@ == g[a].0@;
                        assert(0 <= w < i + 1 && errors@[w].0@ == g[a].0@);
                    } else {
                        assert(errors@[i as int].0@ == g[a].0@);
                    }
                }
                assert forall|t: int| 0 <= t < i + 1 implies has_group(g, #[trigger] errors@[t].0@) by {
                    let w = if t == i && seen {
                        choose|w: int| 0 <= w < i && #[trigger] errors@[w].0@ == errors@[i as int].0@
                    } else {
                        t
                    };
                    if w < i {
                        assert(has_group(old_groups, errors@[w].0@));
                        let a = choose|a: int| 0 <= a < old_groups.len() && #[trigger] old_groups[a].0@ == errors@[w].0@;
                        assert(g[a] == old_groups[a]);
                    } else {
                        assert(g[g.len() - 1].0@ == errors@[t].0@);
                    }
                }
            }
            i = i + 1;
        }
        AppError::BadRequest { errors: groups }
    }

    /// The text sent to the client with the status code.
    pub fn message(&self) -> (r: &'static str)
        ensures
            r@ == match self {
                AppError::BadRequest { .. } => "error in request body"@,
                AppError::NotFound => "request path not found"@,
                AppError::Database(_) => "an error occurred with the database"@,
                AppError::InternalServerError => "an internal server error occurred"@,
            },
    {
        match self {
            AppError::BadRequest { .. } => "error in request body",
            AppError::NotFound => "request path not found",
            AppError::Database(_) => "an error occurred with the database",
            AppError::InternalServerError => "an internal server error occurred",
        }
    }

    /// HTTP status code for this error.
    pub fn status_code(&self) -> (r: u16)
        ensures
            r == match self {
                AppError::BadRequest { .. } => 400u16,
                AppError::NotFound => 404u16,
                AppError::Database(_) => 500u16,
                AppError::InternalServerError => 500u16,
            },
    {
        match self {
            AppError::BadRequest { .. } => 400,
            AppError::NotFound => 404,
            AppError::Database(_) => 500,
            AppError::InternalServerError => 500,
        }
    }
}

/// The sheet or cell that was looked up, or `NotFound` when there was none.
pub fn found<T>(item: Option<T>) -> (r: Result<T, AppError>)
    ensures
        match item {
            Some(x) => r == Ok::<T, AppError>(x),
            None => r matches Err(AppError::NotFound),
        },
{
    match item {
        Some(x) => Ok(x),
        None => Err(AppError::NotFound),
    }
}

/// Succeeds when an existence check answered yes; an answer of no, or no
/// answer at all, is `NotFound`.
pub fn require_exists(exists: Option<bool>) -> (r: Result<(), AppError>)
    ensures
        r is Ok <==> exists == Some(true),
        r matches Err(e) ==> e is NotFound,
{
    match exists {
        Some(true) => Ok(()),
        _ => Err(AppError::NotFound),
    }
}

} // verus!
