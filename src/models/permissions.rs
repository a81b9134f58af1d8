//! Capability bitmask carried by a session, and the claims bound to a token.
use vstd::prelude::*;

verus! {

/// The number of distinct capabilities a `Permissions` value records.
pub const PERMISSION_COUNT: u32 = 12;

/// Whether bit `n` of `bits` is set.
pub open spec fn bit_of(bits: i32, n: u32) -> bool {
    bits & (1i32 << n) == (1i32 << n)
}

proof fn lemma_bit_of_zero(n: u32)
    requires
        n < 31,
    ensures
        !bit_of(0, n),
{
    assert(0i32 & (1i32 << n) != (1i32 << n)) by (bit_vector)
        requires
            n < 31,
    ;
}

proof fn lemma_bit_of_or(v: i32, k: u32, j: u32)
    requires
        k < 31,
        j < 31,
    ensures
        bit_of(v | (1i32 << k), j) == (j == k || bit_of(v, j)),
{
    assert(((v | (1i32 << k)) & (1i32 << j) == (1i32 << j)) == (j == k || v & (1i32 << j) == (
    1i32 << j))) by (bit_vector)
        requires
            k < 31,
            j < 31,
    ;
}

/// The capabilities granted to a session, one bit per capability, in the
/// order: developer, identify, get channels, join/leave channels,
/// modify/create/delete channels, see other users, see messages,
/// modify/create/delete messages, add members, kick members, ban members,
/// modify members.
#[derive(Clone, Copy, Debug, PartialEq, Eq)]
pub struct Permissions(i32);

impl View for Permissions {
    type V = Seq<bool>;

    /// The twelve capability flags, in declaration order.
    closed spec fn view(&self) -> Seq<bool> {
        Seq::new(PERMISSION_COUNT as nat, |i: int| bit_of(self.0, i as u32))
    }
}

proof fn lemma_or_in_range(v: i32, k: u32)
    requires
        0 <= v < 4096,
        k < 12,
    ensures
        0 <= v | (1i32 << k) < 4096,
{
    assert(0 <= v | (1i32 << k) < 4096) by (bit_vector)
        requires
            0 <= v < 4096,
            k < 12,
    ;
}

/// Setting bit `k` of a value below `2^k` adds `2^k`.
proof fn lemma_or_adds(v: i32, k: u32)
    requires
        0 <= v < (1i32 << k),
        k < 12,
    ensures
        v | (1i32 << k) == v + (1i32 << k),
        v + (1i32 << k) < (1i32 << (k + 1) as u32),
        (1i32 << k) < (1i32 << (k + 1) as u32),
{
    assert(v | (1i32 << k) == v + (1i32 << k) && v + (1i32 << k) < (1i32 << (k + 1) as u32)
        && (1i32 << k) < (1i32 << (k + 1) as u32)) by (bit_vector)
        requires
            0 <= v < (1i32 << k),
            k < 12,
    ;
}

/// The value of the bit that flag `k` sits at.
pub open spec fn flag_value(on: bool, k: u32) -> int {
    if on {
        (1i32 << k) as int
    } else {
        0
    }
}

fn with_flag(bits: i32, k: u32, on: bool) -> (r: i32)
    requires
        k < PERMISSION_COUNT,
    ensures
        0 <= bits < 4096 ==> 0 <= r < 4096,
        0 <= bits < (1i32 << k) ==> r == bits + flag_value(on, k) && 0 <= r < (1i32 << (k
            + 1) as u32),
        forall|j: u32|
            j < PERMISSION_COUNT ==> #[trigger] bit_of(r, j) == if j == k {
                on || bit_of(bits, j)
            } else {
                bit_of(bits, j)
            },
{
    if on {
        let r = bits | (1i32 << k);
        proof {
            if 0 <= bits < 4096 {
                lemma_or_in_range(bits, k);
            }
            if 0 <= bits < (1i32 << k) {
                lemma_or_adds(bits, k);
            }
        }
        assert forall|j: u32| j < PERMISSION_COUNT implies #[trigger] bit_of(r, j) == (j == k
            || bit_of(bits, j)) by {
            lemma_bit_of_or(bits, k, j);
        }
        r
    } else {
        proof {
            if 0 <= bits < (1i32 << k) {
                lemma_or_adds(0, k);
            }
        }
        bits
    }
}

impl Permissions {
    /// The mask as stored.
    pub closed spec fn bits(&self) -> i32 {
        self.0
    }

    /// Builds the mask whose flags are exactly the arguments, in order: flag
    /// `i` sits at bit `i` (value `2^i`), and no other bit is set.
    #[verifier::rlimit(60)]
    pub fn new(
        developer: bool,
        identify: bool,
        get_channels: bool,
        join_leave_channels: bool,
        modify_create_delete_channels: bool,
        see_other_users: bool,
        see_messages: bool,
        modify_create_delete_messages: bool,
        add_members: bool,
        kick_members: bool,
        ban_members: bool,
        modify_members: bool,
    ) -> (r: Self)
        ensures
            0 <= r.bits() < 4096,
            r.bits() == flag_value(developer, 0) + flag_value(identify, 1) + flag_value(
                get_channels,
                2,
            ) + flag_value(join_leave_channels, 3) + flag_value(modify_create_delete_channels, 4)
                + flag_value(see_other_users, 5) + flag_value(see_messages, 6) + flag_value(
                modify_create_delete_messages,
                7,
            ) + flag_value(add_members, 8) + flag_value(kick_members, 9) + flag_value(
                ban_members,
                10,
            ) + flag_value(modify_members, 11),
            flag_value(true, 0) == 1 && flag_value(true, 1) == 2 && flag_value(true, 2) == 4
                && flag_value(true, 3) == 8 && flag_value(true, 4) == 16 && flag_value(true, 5)
                == 32 && flag_value(true, 6) == 64 && flag_value(true, 7) == 128 && flag_value(
                true,
                8,
            ) == 256 && flag_value(true, 9) == 512 && flag_value(true, 10) == 1024
                && flag_value(true, 11) == 2048,
            r@ == seq![
                developer,
                identify,
                get_channels,
                join_leave_channels,
                modify_create_delete_channels,
                see_other_users,
                see_messages,
                modify_create_delete_messages,
                add_members,
                kick_members,
                ban_members,
                modify_members,
            ],
    {
        proof {
            assert forall|j: u32| j < PERMISSION_COUNT implies !#[trigger] bit_of(0, j) by {
                lemma_bit_of_zero(j);
            }
        }
        assert(1i32 << 0u32 == 1 && 1i32 << 1u32 == 2 && 1i32 << 2u32 == 4 && 1i32 << 3u32 == 8
            && 1i32 << 4u32 == 16 && 1i32 << 5u32 == 32 && 1i32 << 6u32 == 64 && 1i32 << 7u32 == 128
            && 1i32 << 8u32 == 256 && 1i32 << 9u32 == 512 && 1i32 << 10u32 == 1024 && 1i32 << 11u32
            == 2048 && 1i32 << 12u32 == 4096) by (bit_vector);
        let b = with_flag(0, 0, developer);
        let b = with_flag(b, 1, identify);
        let b = with_flag(b, 2, get_channels);
        let b = with_flag(b, 3, join_leave_channels);
        let b = with_flag(b, 4, modify_create_delete_channels);
        let b = with_flag(b, 5, see_other_users);
        let b = with_flag(b, 6, see_messages);
        let b = with_flag(b, 7, modify_create_delete_messages);
        let b = with_flag(b, 8, add_members);
        let b = with_flag(b, 9, kick_members);
        let b = with_flag(b, 10, ban_members);
        let b = with_flag(b, 11, modify_members);
        let r = Permissions(b);
        assert(r@ =~= seq![
            developer,
            identify,
            get_channels,
            join_leave_channels,
            modify_create_delete_channels,
            see_other_users,
            see_messages,
            modify_create_delete_messages,
            add_members,
            kick_members,
            ban_members,
            modify_members,
        ]);
        r
    }

    fn flag(&self, n: u32) -> (r: bool)
        requires
            n < PERMISSION_COUNT,
        ensures
            r == self@[n as int],
    {
        self.0 & (1i32 << n) == (1i32 << n)
    }

    pub fn developer(&self) -> (r: bool)
        ensures
            r == self@[0],
    {
        self.flag(0)
    }

    pub fn identify(&self) -> (r: bool)
        ensures
            r == self@[1],
    {
        self.flag(1)
    }

    pub fn get_channels(&self) -> (r: bool)
        ensures
            r == self@[2],
    {
        self.flag(2)
    }

    pub fn join_leave_channels(&self) -> (r: bool)
        ensures
            r == self@[3],
    {
        self.flag(3)
    }

    pub fn modify_create_delete_channels(&self) -> (r: bool)
        ensures
            r == self@[4],
    {
        self.flag(4)
    }

    pub fn see_other_users(&self) -> (r: bool)
        ensures
            r == self@[5],
    {
        self.flag(5)
    }

    pub fn see_messages(&self) -> (r: bool)
        ensures
            r == self@[6],
    {
        self.flag(6)
    }

    pub fn modify_create_delete_messages(&self) -> (r: bool)
        ensures
            r == self@[7],
    {
        self.flag(7)
    }

    pub fn add_members(&self) -> (r: bool)
        ensures
            r == self@[8],
    {
        self.flag(8)
    }

    pub fn kick_members(&self) -> (r: bool)
        ensures
            r == self@[9],
    {
        self.flag(9)
    }

    pub fn ban_members(&self) -> (r: bool)
        ensures
            r == self@[10],
    {
        self.flag(10)
    }

    pub fn modify_members(&self) -> (r: bool)
        ensures
            r == self@[11],
    {
        self.flag(11)
    }
}

/// Two masks with no bits beyond the twelve flags are equal exactly when
/// their flags are.
pub proof fn lemma_flags_determine(a: Permissions, b: Permissions)
    requires
        0 <= a.bits() < 4096,
        0 <= b.bits() < 4096,
        a@ == b@,
    ensures
        a == b,
{
    let x = a.0;
    let y = b.0;
    assert forall|k: u32| k < PERMISSION_COUNT implies bit_of(x, k) == bit_of(y, k) by {
        assert(a@[k as int] == b@[k as int]);
        assert(a@[k as int] == bit_of(x, (k as int) as u32));
        assert(b@[k as int] == bit_of(y, (k as int) as u32));
    }
    assert(bit_of(x, 0) == bit_of(y, 0));
    assert(bit_of(x, 1) == bit_of(y, 1));
    assert(bit_of(x, 2) == bit_of(y, 2));
    assert(bit_of(x, 3) == bit_of(y, 3));
    assert(bit_of(x, 4) == bit_of(y, 4));
    assert(bit_of(x, 5) == bit_of(y, 5));
    assert(bit_of(x, 6) == bit_of(y, 6));
    assert(bit_of(x, 7) == bit_of(y, 7));
    assert(bit_of(x, 8) == bit_of(y, 8));
    assert(bit_of(x, 9) == bit_of(y, 9));
    assert(bit_of(x, 10) == bit_of(y, 10));
    assert(bit_of(x, 11) == bit_of(y, 11));
    assert(x == y) by (bit_vector)
        requires
            0 <= x < 4096,
            0 <= y < 4096,
            bit_of(x, 0) == bit_of(y, 0),
            bit_of(x, 1) == bit_of(y, 1),
            bit_of(x, 2) == bit_of(y, 2),
            bit_of(x, 3) == bit_of(y, 3),
            bit_of(x, 4) == bit_of(y, 4),
            bit_of(x, 5) == bit_of(y, 5),
            bit_of(x, 6) == bit_of(y, 6),
            bit_of(x, 7) == bit_of(y, 7),
            bit_of(x, 8) == bit_of(y, 8),
            bit_of(x, 9) == bit_of(y, 9),
            bit_of(x, 10) == bit_of(y, 10),
            bit_of(x, 11) == bit_of(y, 11),
    ;
}

/// What a session grants: the account it belongs to, its capabilities, and
/// the Unix time (seconds) from which it is no longer valid.
#[derive(Clone, Copy, Debug, PartialEq, Eq)]
pub struct AuthClaims {
    pub sub: u64,
    pub perms: Permissions,
    pub exp: i64,
}

} // verus!
