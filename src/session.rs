use vstd::prelude::*;
use vstd::string::*;

verus! {

/// The directory that holds one cache file per shell session.
pub const CACHE_DIR: &'static str = "/tmp/medusa";

/// The decimal digit character for `d`.
pub open spec fn digit_char(d: nat) -> char {
    if d == 0 {
        '0'
    } else if d == 1 {
        '1'
    } else if d == 2 {
        '2'
    } else if d == 3 {
        '3'
    } else if d == 4 {
        '4'
    } else if d == 5 {
        '5'
    } else if d == 6 {
        '6'
    } else if d == 7 {
        '7'
    } else if d == 8 {
        '8'
    } else {
        '9'
    }
}

/// The decimal digits of `n`, most significant first.
pub open spec fn digits(n: nat) -> Seq<char>
    decreases n,
{
    if n < 10 {
        seq![digit_char(n)]
    } else {
        digits(n / 10).push(digit_char(n % 10))
    }
}

/// `n` written in decimal, with a `-` before a negative number.
pub open spec fn decimal(n: int) -> Seq<char> {
    if n < 0 {
        seq!['-'] + digits((-n) as nat)
    } else {
        digits(n as nat)
    }
}

/// The cache file of the session whose shell has process id `pid`.
pub open spec fn cache_path(pid: int) -> Seq<char> {
    CACHE_DIR@ + "/"@ + decimal(pid)
}

fn digit_str(d: u32) -> (r: &'static str)
    requires
        d < 10,
    ensures
        r@ == seq![digit_char(d as nat)],
{
    proof {
        reveal_strlit("0");
        reveal_strlit("1");
        reveal_strlit("2");
        reveal_strlit("3");
        reveal_strlit("4");
        reveal_strlit("5");
        reveal_strlit("6");
        reveal_strlit("7");
        reveal_strlit("8");
        reveal_strlit("9");
    }
    match d {
        0 => "0",
        1 => "1",
        2 => "2",
        3 => "3",
        4 => "4",
        5 => "5",
        6 => "6",
        7 => "7",
        8 => "8",
        _ => "9",
    }
}

fn digits_string(n: u32) -> (r: String)
    ensures
        r@ == digits(n as nat),
    decreases n,
{
    if n < 10 {
        String::from_str(digit_str(n))
    } else {
        let mut s = digits_string(n / 10);
        s.append(digit_str(n % 10));
        s
    }
}

/// `n` in decimal.
pub fn decimal_string(n: i32) -> (r: String)
    ensures
        r@ == decimal(n as int),
{
    if n < 0 {
        let m: u32 = (0i64 - n as i64) as u32;
        let mut s = String::from_str("-");
        s.append(digits_string(m).as_str());
        proof {
            reveal_strlit("-");
        }
        assert(s@ =~= decimal(n as int));
        s
    } else {
        digits_string(n as u32)
    }
}

/// The path of the cache file for the shell with process id `pid`.
pub fn cache_file_path_for(pid: i32) -> (r: String)
    ensures
        r@ == cache_path(pid as int),
{
    let mut p = String::from_str(CACHE_DIR);
    p.append("/");
    p.append(decimal_string(pid).as_str());
    p
}

/// Relies on nix::unistd::getppid: the process id of this process's parent,
/// the shell that runs it. Nothing is known of its value.
#[verifier::external_body]
fn parent_process_id() -> (r: i32) {
    nix::unistd::getppid().as_raw()
}

/// The path of the invoking shell session's cache file.
pub fn get_cache_file() -> (r: String)
    ensures
        exists|pid: i32| r@ == cache_path(pid as int),
{
    let pid = parent_process_id();
    cache_file_path_for(pid)
}

} // verus!
