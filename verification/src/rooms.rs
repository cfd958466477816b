//! Admin room management: slugs and presenter keys of new rooms, the
//! datetime form rooms are stored with, partial updates of a room, and the
//! name an admin enters a room under.
use vstd::prelude::*;

use crate::access::Role;
use crate::auth::{bcrypt_hash, bcrypt_verdict};
use crate::crypto::{hex, hex_of, is_lower_hex, random_bytes, random_hex, lemma_hex_shape};
use crate::error::{fails_with, owned, AppError, ErrorKind};
use crate::ids::{is_uuid_text, new_uuid};
use crate::text::{
    chars_of, decimal, first_index_of, find_char, is_ascii_alnum, is_ascii_alnum_char,
    lemma_first_index_of, push_char, push_decimal, append_str, string_of, string_of_range,
    trailing_count, trim, trim_chars, sub_chars,
};

verus! {

// ---------------------------------------------------------------------------
// Datetimes
// ---------------------------------------------------------------------------

/// `s` with every `'T'` replaced by a space.
pub open spec fn t_to_space(s: Seq<char>) -> Seq<char> {
    s.map_values(|c: char| if c == 'T' { ' ' } else { c })
}

/// An ISO 8601 datetime in the form SQLite writes `CURRENT_TIMESTAMP`
/// (`2025-04-15T22:00:00.000Z` becomes `2025-04-15 22:00:00`): `'T'`
/// becomes a space; then everything from the first `'.'` is cut, or,
/// without a `'.'`, the trailing `'Z'`s.
pub open spec fn normalized_datetime(s: Seq<char>) -> Seq<char> {
    let r = t_to_space(s);
    match first_index_of(r, '.') {
        Some(i) => r.take(i),
        None => r.take(r.len() - trailing_count(r, 'Z')),
    }
}

/// Brings an ISO 8601 datetime into the stored form (see
/// `normalized_datetime`), so that stored datetimes compare as strings.
pub fn normalize_datetime(s: &str) -> (res: String)
    ensures
        res@ == normalized_datetime(s@),
{
    let cs = chars_of(s);
    let mut r: Vec<char> = Vec::new();
    for i in 0..cs.len()
        invariant
            cs@ == s@,
            r@ == t_to_space(s@).take(i as int),
    {
        let c = cs[i];
        r.push(if c == 'T' { ' ' } else { c });
        assert(r@ =~= t_to_space(s@).take(i + 1));
    }
    assert(r@ =~= t_to_space(s@));
    proof {
        lemma_first_index_of(r@, '.');
    }
    match find_char(&r, '.') {
        Some(i) => string_of_range(&r, 0, i),
        None => {
            let n = r.len();
            let mut e = n;
            while e > 0 && r[e - 1] == 'Z'
                invariant
                    e <= n == r@.len(),
                    forall|j: int| e <= j < n ==> r@[j] == 'Z',
                decreases e,
            {
                e -= 1;
            }
            proof {
                crate::text::lemma_trailing_count_at(r@, 'Z', (n - e) as int);
            }
            string_of_range(&r, 0, e)
        },
    }
}

// ---------------------------------------------------------------------------
// Slugs and presenter keys
// ---------------------------------------------------------------------------

/// The maximal runs of ASCII letters and digits of `s`, joined by single
/// dashes (`"My  Room!"` gives `"My-Room"`).
pub open spec fn alnum_runs_joined(s: Seq<char>) -> Seq<char>
    decreases s.len(),
{
    if s.len() == 0 {
        Seq::<char>::empty()
    } else {
        let prev = alnum_runs_joined(s.drop_last());
        let c = s.last();
        if !is_ascii_alnum(c) {
            prev
        } else if s.len() >= 2 && is_ascii_alnum(s[s.len() - 2]) {
            prev.push(c)
        } else if prev.len() == 0 {
            seq![c]
        } else {
            prev.push('-').push(c)
        }
    }
}

/// `s` without its dashes.
pub open spec fn dash_free(s: Seq<char>) -> Seq<char> {
    s.filter(|c: char| c != '-')
}

/// The ASCII letters and digits of `s`, in order.
pub open spec fn alnum_only(s: Seq<char>) -> Seq<char> {
    s.filter(|c: char| is_ascii_alnum(c))
}

/// Joining the runs keeps every ASCII letter and digit of the name, in
/// order, and adds nothing but dashes: taking the dashes out gives exactly
/// the name's letters and digits.
pub proof fn lemma_runs_keep_letters_and_digits(s: Seq<char>)
    ensures
        dash_free(alnum_runs_joined(s)) == alnum_only(s),
        alnum_runs_joined(s).len() <= s.len(),
        s.len() > 0 && !is_ascii_alnum(s.last()) ==> alnum_runs_joined(s).len() < s.len(),
    decreases s.len(),
{
    reveal(Seq::filter);
    if s.len() > 0 {
        let t = s.drop_last();
        lemma_runs_keep_letters_and_digits(t);
        let prev = alnum_runs_joined(t);
        let c = s.last();
        assert(alnum_only(s) == if is_ascii_alnum(c) {
            alnum_only(t).push(c)
        } else {
            alnum_only(t)
        });
        if !is_ascii_alnum(c) {
        } else if s.len() >= 2 && is_ascii_alnum(s[s.len() - 2]) {
            assert(prev.push(c).drop_last() == prev);
            assert(dash_free(prev.push(c)) == dash_free(prev).push(c));
        } else if prev.len() == 0 {
            assert(seq![c].drop_last() =~= prev);
            assert(dash_free(prev) =~= Seq::<char>::empty()) by {
                assert(prev =~= Seq::<char>::empty());
            }
            assert(dash_free(seq![c]) == dash_free(prev).push(c));
        } else {
            assert(s.len() >= 2);
            assert(t.last() == s[s.len() - 2]);
            let d = prev.push('-');
            assert(d.push(c).drop_last() == d);
            assert(d.drop_last() == prev);
            assert(dash_free(d) == dash_free(prev));
            assert(dash_free(d.push(c)) == dash_free(d).push(c));
        }
    }
}

/// What a slug shows of the room's name: for a name of at most eighty
/// characters, the slug without its dashes is exactly the lowercased name's
/// ASCII letters and digits, in order, followed by the suffix in hex.
pub proof fn lemma_slug_shows_the_name(lower: Seq<char>, suffix: Seq<u8>)
    requires
        lower.len() <= SLUG_BASE_MAX,
    ensures
        dash_free(slug_text(lower, suffix)) == alnum_only(lower) + hex(suffix),
{
    lemma_runs_keep_letters_and_digits(lower);
    lemma_hex_shape(suffix);
    let base = alnum_runs_joined(lower);
    let h = hex(suffix);
    assert(dash_free(h) == h) by {
        reveal(Seq::filter);
        lemma_filter_all_kept(h);
    }
    assert(dash_free(seq!['-']) =~= Seq::<char>::empty()) by {
        reveal(Seq::filter);
        let one = seq!['-'];
        assert(one.len() == 1);
        assert(one.last() == '-');
        assert(one.drop_last() =~= Seq::<char>::empty());
        assert(one.drop_last().filter(|c: char| c != '-') =~= Seq::<char>::empty());
    }
    Seq::filter_distributes_over_add(base + seq!['-'], h, |c: char| c != '-');
    Seq::filter_distributes_over_add(base, seq!['-'], |c: char| c != '-');
    assert(slug_text(lower, suffix) == base + seq!['-'] + h);
}

/// Lowercase hex digits are never dashes, so filtering dashes keeps them.
proof fn lemma_filter_all_kept(h: Seq<char>)
    requires
        forall|i: int| 0 <= i < h.len() ==> is_lower_hex(#[trigger] h[i]),
    ensures
        dash_free(h) == h,
    decreases h.len(),
{
    reveal(Seq::filter);
    if h.len() > 0 {
        lemma_filter_all_kept(h.drop_last());
        assert(is_lower_hex(h[h.len() - 1]));
        assert(h.drop_last().push(h.last()) =~= h);
    }
}

/// The longest a slug's readable part gets.
pub const SLUG_BASE_MAX: usize = 80;

/// The slug of a room whose lowercased name is `lower`, given the random
/// suffix bytes: the name's letter-and-digit runs joined by dashes, cut to
/// eighty characters, then a dash and the suffix in hex.
pub open spec fn slug_text(lower: Seq<char>, suffix: Seq<u8>) -> Seq<char> {
    let base = alnum_runs_joined(lower);
    let base = if base.len() > SLUG_BASE_MAX {
        base.take(SLUG_BASE_MAX as int)
    } else {
        base
    };
    base + seq!['-'] + hex(suffix)
}

/// Names `str::to_lowercase`: the Unicode lowercase mapping of `s`.
pub uninterp spec fn lowercase(s: Seq<char>) -> Seq<char>;

/// `str::to_lowercase`. The contract claims only that the result is the
/// named lowercase mapping of exactly these characters.
#[verifier::external_body]
fn to_lowercase(s: &str) -> (res: String)
    ensures
        res@ == lowercase(s@),
{
    s.to_lowercase()
}

/// The slug for a room whose lowercased name is `lower`, with the given
/// suffix bytes (see `slug_text`).
pub fn slug_from_lowercase(lower: &str, suffix: &[u8]) -> (res: String)
    ensures
        res@ == slug_text(lower@, suffix@),
        lower@.len() <= SLUG_BASE_MAX ==> dash_free(res@) == alnum_only(lower@) + hex(suffix@),
        dash_free(alnum_runs_joined(lower@)) == alnum_only(lower@),
{
    let cs = chars_of(lower);
    let mut base: Vec<char> = Vec::new();
    for i in 0..cs.len()
        invariant
            cs@ == lower@,
            base@ == alnum_runs_joined(lower@.take(i as int)),
    {
        let c = cs[i];
        let ghost t = lower@.take(i + 1);
        assert(t.drop_last() == lower@.take(i as int));
        assert(t.last() == c);
        if is_ascii_alnum_char(c) {
            if i > 0 && is_ascii_alnum_char(cs[i - 1]) {
                assert(t[t.len() - 2] == cs@[i - 1]);
                base.push(c);
            } else if base.len() == 0 {
                proof {
                    if i > 0 {
                        assert(t[t.len() - 2] == cs@[i - 1]);
                    }
                }
                base.push(c);
                assert(base@ =~= seq![c]);
            } else {
                proof {
                    if i > 0 {
                        assert(t[t.len() - 2] == cs@[i - 1]);
                    }
                }
                base.push('-');
                base.push(c);
            }
        }
    }
    assert(lower@.take(lower@.len() as int) == lower@);
    let end = if base.len() > SLUG_BASE_MAX {
        SLUG_BASE_MAX
    } else {
        base.len()
    };
    let mut out = string_of_range(&base, 0, end);
    push_char(&mut out, '-');
    let h = hex_of(suffix);
    append_str(&mut out, h.as_str());
    proof {
        lemma_runs_keep_letters_and_digits(lower@);
        if lower@.len() <= SLUG_BASE_MAX {
            lemma_slug_shows_the_name(lower@, suffix@);
        }
    }
    out
}

/// A fresh slug for a room named `name`: its readable part, then a dash and
/// six random lowercase hex digits.
pub fn generate_slug(name: &str) -> (res: String)
    ensures
        exists|suffix: Seq<u8>|
            #![trigger slug_text(lowercase(name@), suffix)]
            suffix.len() == 3 && res@ == slug_text(lowercase(name@), suffix),
{
    let lower = to_lowercase(name);
    let suffix = random_bytes(3);
    slug_from_lowercase(lower.as_str(), suffix.as_slice())
}

/// A fresh presenter key: 32 lowercase hex digits (16 random bytes).
pub fn generate_presenter_key() -> (res: String)
    ensures
        res@.len() == 32,
        forall|i: int| 0 <= i < res@.len() ==> is_lower_hex(#[trigger] res@[i]),
{
    random_hex(16)
}

/// Slugs are URL-safe: every character is an ASCII letter, a digit or a
/// dash, whatever the name.
pub proof fn lemma_slug_is_url_safe(lower: Seq<char>, suffix: Seq<u8>)
    ensures
        forall|i: int|
            0 <= i < slug_text(lower, suffix).len() ==> is_ascii_alnum(#[trigger] slug_text(
                lower,
                suffix,
            )[i]) || slug_text(lower, suffix)[i] == '-',
{
    lemma_runs_alnum_or_dash(lower);
    lemma_hex_shape(suffix);
    let base = alnum_runs_joined(lower);
    let cut = if base.len() > SLUG_BASE_MAX {
        base.take(SLUG_BASE_MAX as int)
    } else {
        base
    };
    let t = slug_text(lower, suffix);
    assert forall|i: int| 0 <= i < t.len() implies is_ascii_alnum(#[trigger] t[i]) || t[i] == '-' by {
        if i < cut.len() {
            assert(t[i] == cut[i]);
            assert(cut[i] == base[i]);
        } else if i == cut.len() {
            assert(t[i] == '-');
        } else {
            let h = hex(suffix);
            assert(t[i] == h[i - cut.len() - 1]);
            assert(crate::crypto::is_lower_hex(h[i - cut.len() - 1]));
        }
    }
}

proof fn lemma_runs_alnum_or_dash(s: Seq<char>)
    ensures
        forall|i: int|
            0 <= i < alnum_runs_joined(s).len() ==> is_ascii_alnum(#[trigger] alnum_runs_joined(s)[i])
                || alnum_runs_joined(s)[i] == '-',
    decreases s.len(),
{
    if s.len() > 0 {
        lemma_runs_alnum_or_dash(s.drop_last());
        let prev = alnum_runs_joined(s.drop_last());
        let r = alnum_runs_joined(s);
        assert forall|i: int| 0 <= i < r.len() implies is_ascii_alnum(#[trigger] r[i]) || r[i] == '-' by {
            if i < prev.len() {
                assert(r[i] == prev[i]);
            }
        }
    }
}

// ---------------------------------------------------------------------------
// Creating a room
// ---------------------------------------------------------------------------

/// The fields of a create-room request.
#[derive(Clone, Debug)]
pub struct CreateRoomRequest {
    pub name: Option<String>,
    pub password: Option<String>,
    pub delivery_mode: Option<String>,
    pub waiting_room: Option<bool>,
    pub expires_at: Option<String>,
    pub stream_key_id: Option<String>,
}

/// The row of a new room, as it is inserted.
#[derive(Clone, Debug)]
pub struct NewRoom {
    pub id: String,
    pub name: String,
    pub slug: String,
    pub password_hash: Option<String>,
    pub presenter_key: String,
    pub delivery_mode: String,
    pub waiting_room: i32,
    pub expires_at: Option<String>,
    pub stream_key_id: Option<String>,
}

/// The bcrypt cost room passwords are hashed with.
pub const ROOM_PASSWORD_COST: u32 = 10;

pub open spec fn opt_view(o: Option<String>) -> Option<Seq<char>> {
    match o {
        Some(s) => Some(s@),
        None => None,
    }
}

/// The room `POST /api/rooms` inserts: 400 `Name is required` without a
/// name; otherwise a fresh id, slug and presenter key, delivery mode
/// `webrtc` unless given, the waiting room on only when asked for, the
/// expiry in stored form, the stream key as given, and a password hash
/// exactly when a non-empty password is given (500 if hashing fails).
#[verifier::spinoff_prover]
pub fn create_room(req: CreateRoomRequest) -> (res: Result<NewRoom, AppError>)
    ensures
        req.name is None ==> fails_with(res, ErrorKind::BadRequest, "Name is required"@),
        req.name is Some ==> (res is Ok || fails_with(
            res,
            ErrorKind::Internal,
            "Password hashing failed"@,
        )),
        res matches Ok(r) ==> req.name is Some && r.name@ == req.name->0@,
        res matches Ok(r) ==> is_uuid_text(r.id@),
        res matches Ok(r) ==> exists|suffix: Seq<u8>|
            #![trigger slug_text(lowercase(r.name@), suffix)]
            suffix.len() == 3 && r.slug@ == slug_text(lowercase(r.name@), suffix),
        res matches Ok(r) ==> r.presenter_key@.len() == 32 && forall|i: int|
            0 <= i < 32 ==> is_lower_hex(#[trigger] r.presenter_key@[i]),
        res matches Ok(r) ==> r.delivery_mode@ == match req.delivery_mode {
            Some(d) => d@,
            None => "webrtc"@,
        },
        res matches Ok(r) ==> r.waiting_room == (if req.waiting_room == Some(true) {
            1i32
        } else {
            0i32
        }),
        res matches Ok(r) ==> opt_view(r.expires_at) == match req.expires_at {
            Some(e) => Some(normalized_datetime(e@)),
            None => None,
        },
        res matches Ok(r) ==> opt_view(r.stream_key_id) == opt_view(req.stream_key_id),
        res matches Ok(r) ==> (r.password_hash is Some <==> (req.password matches Some(p)
            && p@.len() > 0)),
        res matches Ok(r) ==> (r.password_hash matches Some(h) ==> bcrypt_verdict(
            req.password->0@,
            h@,
        ) == Some(true)),
        req.name is Some && !(req.password matches Some(p) && p@.len() > 0) ==> res is Ok,
{
    let name = match req.name {
        Some(n) => n,
        None => return Err(AppError::new(ErrorKind::BadRequest, "Name is required")),
    };
    let id = new_uuid();
    let slug = generate_slug(name.as_str());
    let ghost sfx = choose|sfx: Seq<u8>| sfx.len() == 3 && slug@ == slug_text(lowercase(name@), sfx);
    assert(sfx.len() == 3 && slug@ == slug_text(lowercase(name@), sfx));
    let presenter_key = generate_presenter_key();
    let delivery_mode = match req.delivery_mode {
        Some(d) => d,
        None => owned("webrtc"),
    };
    let waiting_room: i32 = match req.waiting_room {
        Some(true) => 1,
        _ => 0,
    };
    let expires_at = match &req.expires_at {
        Some(e) => Some(normalize_datetime(e.as_str())),
        None => None,
    };
    let password_hash = match &req.password {
        Some(pw) => if pw.as_str().is_empty() {
            None
        } else {
            match bcrypt_hash(pw.as_str(), ROOM_PASSWORD_COST) {
                Ok(h) => Some(h),
                Err(_) => return Err(AppError::new(ErrorKind::Internal, "Password hashing failed")),
            }
        },
        None => None,
    };
    let r = NewRoom {
        id,
        name,
        slug,
        password_hash,
        presenter_key,
        delivery_mode,
        waiting_room,
        expires_at,
        stream_key_id: req.stream_key_id,
    };
    assert(sfx.len() == 3 && r.slug@ == slug_text(lowercase(r.name@), sfx));
    Ok(r)
}

// ---------------------------------------------------------------------------
// Updating a room
// ---------------------------------------------------------------------------

/// One field of a JSON request body, as far as an update reads it.
#[derive(Clone, Debug)]
pub enum JsonField {
    /// The key is not in the body.
    Absent,
    Null,
    Bool(bool),
    Text(String),
    /// A number, array or object.
    Other,
}

/// The fields of a partial room update.
#[derive(Clone, Debug)]
pub struct RoomPatch {
    pub name: JsonField,
    pub delivery_mode: JsonField,
    pub waiting_room: JsonField,
    pub expires_at: JsonField,
    pub stream_key_id: JsonField,
    pub password: JsonField,
}

/// The columns an update can set.
#[derive(Clone, Copy, Debug, PartialEq, Eq, Structural)]
pub enum RoomColumn {
    Name,
    DeliveryMode,
    WaitingRoom,
    ExpiresAt,
    StreamKeyId,
    PasswordHash,
}

/// A value bound to an SQL parameter.
#[derive(Clone, Debug)]
pub enum SqlValue {
    Null,
    Int(i64),
    Text(String),
}

/// A planned update: the columns set, in order, the value of each, and the
/// statement (`None` when nothing is to be set). The room's id binds the
/// parameter after the values.
#[derive(Clone, Debug)]
pub struct RoomUpdate {
    pub columns: Vec<RoomColumn>,
    pub values: Vec<SqlValue>,
    pub sql: Option<String>,
}

pub open spec fn column_name(c: RoomColumn) -> Seq<char> {
    match c {
        RoomColumn::Name => "name"@,
        RoomColumn::DeliveryMode => "delivery_mode"@,
        RoomColumn::WaitingRoom => "waiting_room"@,
        RoomColumn::ExpiresAt => "expires_at"@,
        RoomColumn::StreamKeyId => "stream_key_id"@,
        RoomColumn::PasswordHash => "password_hash"@,
    }
}

/// The columns a patch sets, in order: name and delivery mode when given as
/// strings; waiting room, expiry, stream key and password whenever present
/// (a null or non-string clears them).
pub open spec fn patch_columns(p: RoomPatch) -> Seq<RoomColumn> {
    col_if(p.name is Text, RoomColumn::Name) + col_if(p.delivery_mode is Text, RoomColumn::DeliveryMode)
        + col_if(!(p.waiting_room is Absent), RoomColumn::WaitingRoom) + col_if(
        !(p.expires_at is Absent),
        RoomColumn::ExpiresAt,
    ) + col_if(!(p.stream_key_id is Absent), RoomColumn::StreamKeyId) + col_if(
        !(p.password is Absent),
        RoomColumn::PasswordHash,
    )
}

/// `c` alone when `b` holds, nothing otherwise.
pub open spec fn col_if(b: bool, c: RoomColumn) -> Seq<RoomColumn> {
    if b {
        seq![c]
    } else {
        Seq::empty()
    }
}

/// The value a patch binds for column `c`. A new password's hash has a
/// random salt, so it is fixed only as a hash that the new password
/// verifies against.
pub open spec fn patch_value_ok(p: RoomPatch, c: RoomColumn, v: SqlValue) -> bool {
    match c {
        RoomColumn::Name => p.name matches JsonField::Text(s) && v matches SqlValue::Text(t) && t@
            == s@,
        RoomColumn::DeliveryMode => p.delivery_mode matches JsonField::Text(s) && v matches SqlValue::Text(
            t,
        ) && t@ == s@,
        RoomColumn::WaitingRoom => v == SqlValue::Int(
            if p.waiting_room == JsonField::Bool(true) { 1 } else { 0 },
        ),
        RoomColumn::ExpiresAt => match p.expires_at {
            JsonField::Text(s) => v matches SqlValue::Text(t) && t@ == normalized_datetime(s@),
            _ => v is Null,
        },
        RoomColumn::StreamKeyId => match p.stream_key_id {
            JsonField::Text(s) => v matches SqlValue::Text(t) && t@ == s@,
            _ => v is Null,
        },
        RoomColumn::PasswordHash => match p.password {
            JsonField::Text(s) => if s@.len() > 0 {
                v matches SqlValue::Text(h) && bcrypt_verdict(s@, h@) == Some(true)
            } else {
                v is Null
            },
            _ => v is Null,
        },
    }
}

/// Each of `vals` is the value the patch binds for the column beside it.
#[verifier::opaque]
pub open spec fn values_ok(p: RoomPatch, cols: Seq<RoomColumn>, vals: Seq<SqlValue>) -> bool {
    &&& vals.len() == cols.len()
    &&& forall|i: int| 0 <= i < cols.len() ==> patch_value_ok(p, #[trigger] cols[i], vals[i])
}

/// `col = ?k`.
pub open spec fn set_clause(c: RoomColumn, k: nat) -> Seq<char> {
    column_name(c) + " = ?"@ + decimal(k)
}

/// The `SET` list for `cols`, parameters numbered from 1.
pub open spec fn set_list(cols: Seq<RoomColumn>) -> Seq<char>
    decreases cols.len(),
{
    if cols.len() == 0 {
        Seq::<char>::empty()
    } else if cols.len() == 1 {
        set_clause(cols[0], 1)
    } else {
        set_list(cols.drop_last()) + ", "@ + set_clause(cols.last(), cols.len())
    }
}

/// The statement setting `cols` of the room whose id binds the last
/// parameter.
pub open spec fn update_sql(cols: Seq<RoomColumn>) -> Seq<char> {
    "UPDATE rooms SET "@ + set_list(cols) + " WHERE id = ?"@ + decimal(cols.len() + 1)
}

fn push_column(
    cols: &mut Vec<RoomColumn>,
    vals: &mut Vec<SqlValue>,
    list: &mut String,
    c: RoomColumn,
    v: SqlValue,
    Ghost(p): Ghost<RoomPatch>,
)
    requires
        old(cols)@.len() < 6,
        values_ok(p, old(cols)@, old(vals)@),
        patch_value_ok(p, c, v),
        old(list)@ == set_list(old(cols)@),
    ensures
        final(cols)@ == old(cols)@.push(c),
        values_ok(p, final(cols)@, final(vals)@),
        final(list)@ == set_list(final(cols)@),
{
    let k = cols.len();
    if k > 0 {
        append_str(list, ", ");
    }
    append_str(list, column_name_str(c));
    append_str(list, " = ?");
    push_decimal(list, (k + 1) as u64);
    cols.push(c);
    vals.push(v);
    proof {
        reveal(values_ok);
        assert forall|i: int| 0 <= i < cols@.len() implies patch_value_ok(
            p,
            #[trigger] cols@[i],
            vals@[i],
        ) by {
            if i < k {
                assert(cols@[i] == old(cols)@[i]);
                assert(vals@[i] == old(vals)@[i]);
            }
        }
        let cs = cols@;
        assert(cs.drop_last() == old(cols)@);
        assert(cs.last() == c);
        if k > 0 {
            assert(final(list)@ =~= set_list(old(cols)@) + ", "@ + column_name(c) + " = ?"@ + decimal(
                (k + 1) as nat,
            ));
        } else {
            assert(final(list)@ =~= column_name(c) + " = ?"@ + decimal(1));
        }
    }
}

fn column_name_str(c: RoomColumn) -> (s: &'static str)
    ensures
        s@ == column_name(c),
{
    match c {
        RoomColumn::Name => "name",
        RoomColumn::DeliveryMode => "delivery_mode",
        RoomColumn::WaitingRoom => "waiting_room",
        RoomColumn::ExpiresAt => "expires_at",
        RoomColumn::StreamKeyId => "stream_key_id",
        RoomColumn::PasswordHash => "password_hash",
    }
}

/// `PUT /api/rooms/{id}`: 404 `Room not found` when no room has that id;
/// otherwise the columns the patch sets, in order, their values and the
/// statement (none when nothing is set); 500 if hashing a new password
/// fails.
#[verifier::rlimit(40)]
pub fn update_room(exists: bool, patch: &RoomPatch) -> (res: Result<RoomUpdate, AppError>)
    ensures
        !exists ==> fails_with(res, ErrorKind::NotFound, "Room not found"@),
        exists ==> (res is Ok || fails_with(res, ErrorKind::Internal, "Password hashing failed"@)),
        exists && !(patch.password matches JsonField::Text(s) && s@.len() > 0) ==> res is Ok,
        res matches Ok(u) ==> {
            &&& u.columns@ == patch_columns(*patch)
            &&& values_ok(*patch, u.columns@, u.values@)
            &&& u.columns@.len() == 0 ==> u.sql is None
            &&& u.columns@.len() > 0 ==> (u.sql matches Some(q) && q@ == update_sql(u.columns@))
        },
{
    if !exists {
        return Err(AppError::new(ErrorKind::NotFound, "Room not found"));
    }
    let mut cols: Vec<RoomColumn> = Vec::new();
    let mut vals: Vec<SqlValue> = Vec::new();
    let mut list = String::new();
    let ghost p = *patch;
    proof {
        reveal(values_ok);
    }
    if let JsonField::Text(s) = &patch.name {
        push_column(&mut cols, &mut vals, &mut list, RoomColumn::Name, SqlValue::Text(s.clone()), Ghost(p));
    }
    assert(cols@ =~= col_if(p.name is Text, RoomColumn::Name));
    let ghost c1 = cols@;
    if let JsonField::Text(s) = &patch.delivery_mode {
        push_column(
            &mut cols,
            &mut vals,
            &mut list,
            RoomColumn::DeliveryMode,
            SqlValue::Text(s.clone()),
            Ghost(p),
        );
    }
    assert(cols@ =~= c1 + col_if(p.delivery_mode is Text, RoomColumn::DeliveryMode));
    let ghost c2 = cols@;
    match &patch.waiting_room {
        JsonField::Absent => {},
        w => {
            let on: i64 = match w {
                JsonField::Bool(true) => 1,
                _ => 0,
            };
            push_column(&mut cols, &mut vals, &mut list, RoomColumn::WaitingRoom, SqlValue::Int(on), Ghost(p));
        },
    }
    assert(cols@ =~= c2 + col_if(!(p.waiting_room is Absent), RoomColumn::WaitingRoom));
    let ghost c3 = cols@;
    match &patch.expires_at {
        JsonField::Absent => {},
        JsonField::Text(s) => {
            let v = SqlValue::Text(normalize_datetime(s.as_str()));
            push_column(&mut cols, &mut vals, &mut list, RoomColumn::ExpiresAt, v, Ghost(p));
        },
        _ => {
            push_column(&mut cols, &mut vals, &mut list, RoomColumn::ExpiresAt, SqlValue::Null, Ghost(p));
        },
    }
    assert(cols@ =~= c3 + col_if(!(p.expires_at is Absent), RoomColumn::ExpiresAt));
    let ghost c4 = cols@;
    match &patch.stream_key_id {
        JsonField::Absent => {},
        JsonField::Text(s) => {
            push_column(
                &mut cols,
                &mut vals,
                &mut list,
                RoomColumn::StreamKeyId,
                SqlValue::Text(s.clone()),
                Ghost(p),
            );
        },
        _ => {
            push_column(&mut cols, &mut vals, &mut list, RoomColumn::StreamKeyId, SqlValue::Null, Ghost(p));
        },
    }
    assert(cols@ =~= c4 + col_if(!(p.stream_key_id is Absent), RoomColumn::StreamKeyId));
    let ghost c5 = cols@;
    match &patch.password {
        JsonField::Absent => {},
        JsonField::Text(s) => {
            if s.as_str().is_empty() {
                push_column(&mut cols, &mut vals, &mut list, RoomColumn::PasswordHash, SqlValue::Null, Ghost(p));
            } else {
                let h = match bcrypt_hash(s.as_str(), ROOM_PASSWORD_COST) {
                    Ok(h) => h,
                    Err(_) => return Err(
                        AppError::new(ErrorKind::Internal, "Password hashing failed"),
                    ),
                };
                push_column(
                    &mut cols,
                    &mut vals,
                    &mut list,
                    RoomColumn::PasswordHash,
                    SqlValue::Text(h),
                    Ghost(p),
                );
            }
        },
        _ => {
            push_column(&mut cols, &mut vals, &mut list, RoomColumn::PasswordHash, SqlValue::Null, Ghost(p));
        },
    }
    assert(cols@ =~= c5 + col_if(!(p.password is Absent), RoomColumn::PasswordHash));
    assert(cols@ =~= patch_columns(p));
    let n = cols.len();
    let sql = if n == 0 {
        None
    } else {
        let mut q = owned("UPDATE rooms SET ");
        append_str(&mut q, list.as_str());
        append_str(&mut q, " WHERE id = ?");
        push_decimal(&mut q, (n + 1) as u64);
        Some(q)
    };
    Ok(RoomUpdate { columns: cols, values: vals, sql })
}

/// Which room event a change of stream key announces.
#[derive(Clone, Copy, Debug, PartialEq, Eq, Structural)]
pub enum StreamKeyChange {
    Assigned,
    Removed,
}

/// The announcement an update owes, given whether the room had a stream key
/// before and the patch's stream-key field: a key where there was none is
/// assigned, no key where there was one is removed; otherwise (including
/// when the patch leaves the key alone) nothing.
pub fn stream_key_change(had_key: bool, field: &JsonField) -> (res: Option<StreamKeyChange>)
    ensures
        *field is Absent ==> res is None,
        !(*field is Absent) ==> res == (if !had_key && *field is Text {
            Some(StreamKeyChange::Assigned)
        } else if had_key && !(*field is Text) {
            Some(StreamKeyChange::Removed)
        } else {
            None
        }),
{
    let has_new = match field {
        JsonField::Absent => return None,
        JsonField::Text(_) => true,
        _ => false,
    };
    if !had_key && has_new {
        Some(StreamKeyChange::Assigned)
    } else if had_key && !has_new {
        Some(StreamKeyChange::Removed)
    } else {
        None
    }
}

// ---------------------------------------------------------------------------
// Entering a room as its host, and row-count checks
// ---------------------------------------------------------------------------

/// The longest name, in characters, a host enters under.
pub const HOST_NAME_MAX: usize = 50;

/// The name an admin enters a room under: the given name trimmed and cut to
/// fifty characters, or `Host` when none is given or it is blank.
pub open spec fn host_name(name: Option<Seq<char>>) -> Seq<char> {
    match name {
        Some(n) => {
            let t = trim(n);
            if t.len() == 0 {
                "Host"@
            } else if t.len() > HOST_NAME_MAX {
                t.take(HOST_NAME_MAX as int)
            } else {
                t
            }
        },
        None => "Host"@,
    }
}

pub fn presenter_name(name: Option<String>) -> (res: String)
    ensures
        res@ == host_name(opt_view(name)),
{
    match name {
        Some(n) => {
            let cs = chars_of(n.as_str());
            let t = trim_chars(&cs);
            if t.len() == 0 {
                owned("Host")
            } else if t.len() > HOST_NAME_MAX {
                string_of_range(&t, 0, HOST_NAME_MAX)
            } else {
                string_of(&t)
            }
        },
        None => owned("Host"),
    }
}

/// What an admin gets on entering a room: a new participant with a fresh
/// id and a 48-digit hex token, inserted with its role and admission.
#[derive(Clone, Debug)]
pub struct HostEntry {
    pub participant_id: String,
    pub token: String,
    pub name: String,
    pub role: Role,
    pub admitted: bool,
}

/// `POST /api/rooms/{id}/enter`: 404 `Room not found` when no room has
/// that id; otherwise an entry under `presenter_name` as a presenter,
/// admitted at once (this is the only way to the presenter role).
pub fn enter_room(room_exists: bool, name: Option<String>) -> (res: Result<HostEntry, AppError>)
    ensures
        !room_exists ==> fails_with(res, ErrorKind::NotFound, "Room not found"@),
        room_exists ==> (res matches Ok(e) && e.name@ == host_name(opt_view(name)) && is_uuid_text(
            e.participant_id@,
        ) && e.role == Role::Presenter && e.admitted && e.token@.len() == 48 && forall|i: int|
            0 <= i < 48 ==> is_lower_hex(#[trigger] e.token@[i])),
{
    let name = presenter_name(name);
    if !room_exists {
        return Err(AppError::new(ErrorKind::NotFound, "Room not found"));
    }
    let participant_id = new_uuid();
    let token = random_hex(24);
    Ok(HostEntry { participant_id, token, name, role: Role::Presenter, admitted: true })
}

/// A write that must touch a row: 404 with `message` when it changed none.
pub fn require_changed(changes: usize, message: &str) -> (res: Result<(), AppError>)
    ensures
        changes == 0 ==> fails_with(res, ErrorKind::NotFound, message@),
        changes > 0 ==> res is Ok,
{
    if changes == 0 {
        Err(AppError::new(ErrorKind::NotFound, message))
    } else {
        Ok(())
    }
}

} // verus!
