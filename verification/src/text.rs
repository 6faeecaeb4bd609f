//! Names that the daemon derives: lock files, addresses, labels.
use vstd::prelude::*;
use vstd::string::*;

verus! {

/// `String::push` appends the given character.
pub assume_specification[ String::push ](s: &mut String, c: char)
    ensures
        final(s)@ == old(s)@.push(c),
;

/// A number below ten as a character.
pub open spec fn digit(d: nat) -> char {
    (48 + d) as char
}

/// A number in decimal, without leading zeros.
pub open spec fn decimal(n: nat) -> Seq<char>
    decreases n,
{
    if n < 10 {
        seq![digit(n)]
    } else {
        decimal(n / 10).push(digit(n % 10))
    }
}

/// Appends a number in decimal.
pub(crate) fn push_decimal(out: &mut String, n: u64)
    ensures
        final(out)@ == old(out)@ + decimal(n as nat),
    decreases n,
{
    if n >= 10 {
        push_decimal(out, n / 10);
    }
    let d: u8 = (n % 10) as u8;
    out.push((48u8 + d) as char);
    assert(out@ =~= old(out)@ + decimal(n as nat));
}

/// A serial port's name with every slash made an underscore.
pub open spec fn without_slashes(port: Seq<char>) -> Seq<char> {
    port.map_values(
        |c: char|
            if c == '/' {
                '_'
            } else {
                c
            },
    )
}

/// The file that is locked for exclusive access to a serial port.
pub fn serial_lock_path(port: &str) -> (r: String)
    ensures
        r@ == "/tmp/donglora-serial-"@ + without_slashes(port@) + ".lock"@,
{
    let mut path = String::new();
    path.append("/tmp/donglora-serial-");
    let ghost prefix = path@;
    for c in it: port.chars()
        invariant
            it.seq() == port@,
            path@ == prefix + without_slashes(port@.take(it.index())),
    {
        if c == '/' {
            path.push('_');
        } else {
            path.push(c);
        }
        assert(port@.take(it.index() + 1) =~= port@.take(it.index()).push(port@[it.index()]));
        assert(path@ =~= prefix + without_slashes(port@.take(it.index() + 1)));
    }
    assert(port@.take(port@.len() as int) =~= port@);
    path.append(".lock");
    path
}

/// The file that is locked so that one daemon serves a socket.
pub fn socket_lock_path(socket_path: &str) -> (r: String)
    ensures
        r@ == socket_path@ + ".lock"@,
{
    let mut path = String::new();
    path.append(socket_path);
    path.append(".lock");
    path
}

/// The address that a TCP listener binds.
pub fn tcp_bind_addr(host: &str, port: u16) -> (r: String)
    ensures
        r@ == host@ + ":"@ + decimal(port as nat),
{
    let mut addr = String::new();
    addr.append(host);
    addr.append(":");
    push_decimal(&mut addr, port as u64);
    addr
}

// ---- Laws -----------------------------------------------------------------

/// Different numbers are written differently.
pub proof fn law_decimal_is_injective(n: nat, m: nat)
    requires
        decimal(n) == decimal(m),
    ensures
        n == m,
    decreases n,
{
    lemma_decimal_len(n);
    lemma_decimal_len(m);
    if n < 10 {
        assert(decimal(n)[0] == digit(n) && decimal(m)[0] == digit(m));
        assert(digit(n) as nat == 48 + n && digit(m) as nat == 48 + m);
    } else {
        assert(decimal(n).last() == digit(n % 10) && decimal(m).last() == digit(m % 10));
        assert(digit(n % 10) as nat == 48 + n % 10 && digit(m % 10) as nat == 48 + m % 10);
        assert(decimal(n).drop_last() =~= decimal(n / 10));
        assert(decimal(m).drop_last() =~= decimal(m / 10));
        law_decimal_is_injective(n / 10, m / 10);
    }
}

proof fn lemma_decimal_len(n: nat)
    ensures
        decimal(n).len() >= 1,
        decimal(n).len() == 1 <==> n < 10,
    decreases n,
{
    if n >= 10 {
        lemma_decimal_len(n / 10);
    }
}

/// The part of a lock file's name that stands for the port has no slash, so the file lies in the
/// directory for temporary files whatever the port is called.
pub proof fn law_lock_path_is_flat(port: Seq<char>)
    ensures
        without_slashes(port).len() == port.len(),
        !without_slashes(port).contains('/'),
{
}

/// The number that digits spell.
pub open spec fn spelled(digits: Seq<char>) -> int
    decreases digits.len(),
{
    if digits.len() == 0 {
        0
    } else {
        10 * spelled(digits.drop_last()) + (digits.last() as int - 48)
    }
}

/// A number in decimal reads as that number, has digits only, and does not start with a zero
/// unless it is zero.
pub proof fn law_decimal_reads_back(n: nat)
    ensures
        spelled(decimal(n)) == n,
        decimal(n).len() > 0,
        forall|i: int| 0 <= i < decimal(n).len() ==> '0' <= #[trigger] decimal(n)[i] <= '9',
        decimal(n)[0] == '0' ==> n == 0,
    decreases n,
{
    reveal_with_fuel(spelled, 2);
    if n < 10 {
        assert(digit(n) as int == 48 + n);
        assert(decimal(n).drop_last() =~= Seq::empty());
    } else {
        law_decimal_reads_back(n / 10);
        assert(digit(n % 10) as int == 48 + n % 10);
        assert(decimal(n).drop_last() =~= decimal(n / 10));
        assert(decimal(n)[0] == decimal(n / 10)[0]);
    }
}

/// In a port's name every slash becomes an underscore, and every other character stays.
pub proof fn law_slashes_become_underscores(port: Seq<char>, i: int)
    requires
        0 <= i < port.len(),
    ensures
        without_slashes(port).len() == port.len(),
        port[i] == '/' ==> without_slashes(port)[i] == '_',
        port[i] != '/' ==> without_slashes(port)[i] == port[i],
{
}

} // verus!
