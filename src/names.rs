use vstd::prelude::*;
use vstd::string::StringExecFns;

use crate::Id;

verus! {

/// The decimal digits of `n`, most significant first.
pub open spec fn decimal(n: nat) -> Seq<char>
    decreases n,
{
    let digit = seq!['0', '1', '2', '3', '4', '5', '6', '7', '8', '9'][(n % 10) as int];
    if n < 10 {
        seq![digit]
    } else {
        decimal(n / 10).push(digit)
    }
}

/// The name a track gets when none is given: `Track` and its identifier.
pub open spec fn default_track_name(id: u64) -> Seq<char> {
    seq!['T', 'r', 'a', 'c', 'k'] + decimal(id as nat)
}

/// Relies on `ToString` through the `Display` impl of `u64`, which writes the
/// decimal digits of the number, without leading zeros.
#[verifier::external_body]
fn decimal_digits(n: u64) -> (r: String)
    ensures
        r@ == decimal(n as nat),
{
    n.to_string()
}

/// The name a track gets when none is given.
pub fn default_name(id: Id) -> (r: String)
    ensures
        r@ == default_track_name(id),
{
    let mut name = String::from_str("Track");
    proof {
        reveal_strlit("Track");
    }
    let digits = decimal_digits(id);
    name.append(digits.as_str());
    proof {
        assert(name@ =~= default_track_name(id));
    }
    name
}

/// The identifier under which a plugin is listed: `lv2` and its URI.
pub open spec fn plugin_id_of(uri: Seq<char>) -> Seq<char> {
    seq!['l', 'v', '2'] + uri
}

/// The identifier under which the plugin with URI `uri` is listed.
pub fn lv2_plugin_id(uri: &str) -> (r: String)
    ensures
        r@ == plugin_id_of(uri@),
{
    let mut id = String::from_str("lv2");
    proof {
        reveal_strlit("lv2");
    }
    id.append(uri);
    proof {
        assert(id@ =~= plugin_id_of(uri@));
    }
    id
}

/// Whether `plugin_id` names the plugin with URI `uri`.
pub fn is_plugin(uri: &str, plugin_id: &str) -> (r: bool)
    ensures
        r == (plugin_id_of(uri@) == plugin_id@),
{
    let listed = lv2_plugin_id(uri);
    let wanted = plugin_id.to_owned();
    listed == wanted
}

} // verus!
