use vstd::prelude::*;

verus! {

/// Lowest port an upstream socket binds to.
pub const FIRST_UPSTREAM_PORT: u16 = 1024;

/// Number of ports from `FIRST_UPSTREAM_PORT` up to and including 65535.
pub const UPSTREAM_PORT_SPAN: u32 = 64512;

/// The upstream port chosen for a random draw `r`.
pub open spec fn port_of_draw(r: u16) -> int {
    FIRST_UPSTREAM_PORT as int + (r as int) % (UPSTREAM_PORT_SPAN as int)
}

/// Relies on `rand::random`, drawing a `u16` from the thread-local generator.
/// Nothing is known of the value drawn.
pub assume_specification<T>[ rand::random::<T> ]() -> (r: T)
    where
        rand::distributions::Standard: rand::distributions::Distribution<T>,
;

/// Maps a random draw onto the ports an upstream socket may bind:
/// every result is at least `FIRST_UPSTREAM_PORT`.
pub fn upstream_port(r: u16) -> (p: u16)
    ensures
        p as int == port_of_draw(r),
        p >= FIRST_UPSTREAM_PORT,
{
    let off: u32 = (r as u32) % UPSTREAM_PORT_SPAN;
    (FIRST_UPSTREAM_PORT as u32 + off) as u16
}

/// Draws the local port for a new session's upstream socket.
pub fn random_upstream_port() -> (p: u16)
    ensures
        p >= FIRST_UPSTREAM_PORT,
        exists|r: u16| p as int == port_of_draw(r),
{
    let r: u16 = rand::random::<u16>();
    upstream_port(r)
}

} // verus!
