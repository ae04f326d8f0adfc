//! Worker identity strings: decimal rendering, pool-qualified ids, socket
//! paths, and the environment values handed to a spawned worker.

use vstd::prelude::*;

verus! {

/// The decimal digit character of `d`.
pub open spec fn spec_digit_char(d: int) -> char {
    if d == 0 {
        '0'
    } else if d == 1 {
        '1'
    } else if d == 2 {
        '2'
    } else if d == 3 {
        '3'
    } else if d == 4 {
        '4'
    } else if d == 5 {
        '5'
    } else if d == 6 {
        '6'
    } else if d == 7 {
        '7'
    } else if d == 8 {
        '8'
    } else {
        '9'
    }
}

/// The decimal digits of `n`, most significant first.
pub open spec fn spec_dec_digits(n: int) -> Seq<char>
    decreases n,
{
    if n < 10 {
        seq![spec_digit_char(n)]
    } else {
        spec_dec_digits(n / 10).push(spec_digit_char(n % 10))
    }
}

/// The one-character string of a decimal digit.
fn digit_str(d: u64) -> (r: &'static str)
    requires
        d < 10,
    ensures
        r@ =~= seq![spec_digit_char(d as int)],
{
    proof {
        reveal_strlit("0");
        reveal_strlit("1");
        reveal_strlit("2");
        reveal_strlit("3");
        reveal_strlit("4");
        reveal_strlit("5");
        reveal_strlit("6");
        reveal_strlit("7");
        reveal_strlit("8");
        reveal_strlit("9");
    }
    if d == 0 {
        "0"
    } else if d == 1 {
        "1"
    } else if d == 2 {
        "2"
    } else if d == 3 {
        "3"
    } else if d == 4 {
        "4"
    } else if d == 5 {
        "5"
    } else if d == 6 {
        "6"
    } else if d == 7 {
        "7"
    } else if d == 8 {
        "8"
    } else {
        "9"
    }
}

/// Render a number in decimal.
pub fn u64_to_string(n: u64) -> (r: String)
    ensures
        r@ == spec_dec_digits(n as int),
    decreases n,
{
    if n < 10 {
        let r = digit_str(n).to_owned();
        proof {
            assert(r@ =~= spec_dec_digits(n as int));
        }
        r
    } else {
        let s = u64_to_string(n / 10);
        let r = s.concat(digit_str(n % 10));
        proof {
            assert(r@ =~= spec_dec_digits(n as int));
        }
        r
    }
}

/// The pool-qualified worker id: the pool's name, a dash, and the index.
pub fn make_worker_id(pool_name: &String, pool_index: usize) -> (r: String)
    ensures
        r@ == pool_name@ + "-"@ + spec_dec_digits(pool_index as int),
{
    let idx = u64_to_string(pool_index as u64);
    let r = pool_name.clone().concat("-").concat(idx.as_str());
    proof {
        assert(r@ =~= pool_name@ + "-"@ + spec_dec_digits(pool_index as int));
    }
    r
}

/// The filesystem path of a worker's domain socket, derived from its id.
pub fn socket_path_for(worker_id: &String) -> (r: String)
    ensures
        r@ == "/tmp/neutrino-"@ + worker_id@ + ".sock"@,
{
    let r = String::from_str("/tmp/neutrino-").concat(worker_id.as_str()).concat(".sock");
    proof {
        assert(r@ =~= "/tmp/neutrino-"@ + worker_id@ + ".sock"@);
    }
    r
}

/// The comma-separated decimal list of a worker's GPU devices.
pub open spec fn spec_device_list(devices: Seq<usize>) -> Seq<char>
    decreases devices.len(),
{
    if devices.len() == 0 {
        Seq::empty()
    } else if devices.len() == 1 {
        spec_dec_digits(devices[0] as int)
    } else {
        spec_device_list(devices.drop_last()) + ","@ + spec_dec_digits(devices.last() as int)
    }
}

/// The value the GPU-visibility variable is set to: the assigned devices as
/// a comma list, the empty string for a worker with no GPU capacity (all
/// devices hidden), and nothing otherwise (the variable is left untouched).
pub fn cuda_devices_value(gpu_devices: &Vec<usize>, num_gpus: u64) -> (r: Option<String>)
    ensures
        gpu_devices@.len() > 0 ==> (r matches Some(s) && s@ == spec_device_list(gpu_devices@)),
        gpu_devices@.len() == 0 && num_gpus == 0 ==> (r matches Some(s) && s@.len() == 0),
        gpu_devices@.len() == 0 && num_gpus > 0 ==> r is None,
{
    if gpu_devices.len() > 0 {
        let mut s = u64_to_string(gpu_devices[0] as u64);
        let mut i: usize = 1;
        while i < gpu_devices.len()
            invariant
                1 <= i <= gpu_devices@.len(),
                s@ == spec_device_list(gpu_devices@.take(i as int)),
            decreases gpu_devices@.len() - i,
        {
            proof {
                assert(gpu_devices@.take(i + 1).drop_last() =~= gpu_devices@.take(i as int));
            }
            s = s.concat(",").concat(u64_to_string(gpu_devices[i] as u64).as_str());
            i = i + 1;
        }
        proof {
            assert(gpu_devices@.take(gpu_devices@.len() as int) =~= gpu_devices@);
        }
        Some(s)
    } else if num_gpus == 0 {
        Some(String::new())
    } else {
        None
    }
}

/// The module search path handed to a spawned worker: any existing path,
/// then the working directory, then its `python` subdirectory, separated by
/// colons.
pub fn build_python_path(existing: &String, cwd: &String) -> (r: String)
    ensures
        existing@.len() == 0 ==> r@ == cwd@ + ":"@ + cwd@ + "/python"@,
        existing@.len() > 0 ==> r@ == existing@ + ":"@ + cwd@ + ":"@ + cwd@ + "/python"@,
{
    if existing.as_str().is_empty() {
        cwd.clone().concat(":").concat(cwd.as_str()).concat("/python")
    } else {
        existing.clone().concat(":").concat(cwd.as_str()).concat(":").concat(cwd.as_str()).concat(
            "/python",
        )
    }
}

} // verus!
