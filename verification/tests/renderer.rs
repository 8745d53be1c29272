use raytracer::material::MaterialKind;
use raytracer::renderer::{
    any_hit, at_depth_limit, closest_hit, order_key, Branch, Next, Node, RayWalk,
};

#[test]
fn the_nearest_hit_is_seen() {
    assert_eq!(closest_hit(&vec![Some(9), Some(4), None, Some(7)]), Some(1));
    assert_eq!(closest_hit(&vec![None, None, Some(0)]), Some(2));
    assert_eq!(closest_hit(&vec![Some(u64::MAX)]), Some(0));
}

#[test]
fn of_equally_near_hits_the_first_is_seen() {
    assert_eq!(closest_hit(&vec![Some(5), Some(3), Some(3), Some(3)]), Some(1));
    assert_eq!(closest_hit(&vec![None, Some(2), Some(2)]), Some(1));
}

#[test]
fn a_ray_that_misses_every_shape_sees_nothing() {
    assert_eq!(closest_hit(&vec![]), None);
    assert_eq!(closest_hit(&vec![None, None]), None);
    assert!(!any_hit(&vec![]));
    assert!(!any_hit(&vec![None, None]));
}

#[test]
fn any_hit_is_enough_for_a_shadow() {
    assert!(any_hit(&vec![None, Some(3)]));
    assert!(any_hit(&vec![Some(0)]));
    assert!(any_hit(&vec![Some(8), None, Some(1)]));
}

#[test]
fn order_keys_compare_as_the_ray_parameters_do() {
    let ts = [
        f64::NEG_INFINITY,
        -1e300,
        -5.0,
        -1.0,
        -1e-300,
        -5e-324,
        -0.0,
        0.0,
        5e-324,
        1e-6,
        0.25,
        1.0,
        4.0,
        5.0,
        1e300,
        f64::MAX,
        f64::INFINITY,
    ];
    for a in ts {
        for b in ts {
            let (ka, kb) = (order_key(a.to_bits()), order_key(b.to_bits()));
            assert_eq!(ka < kb, a < b, "{a} {b}");
            assert_eq!(ka == kb, a == b, "{a} {b}");
        }
    }
    assert_eq!(order_key(0), 1 << 63);
    assert_eq!(order_key(1 << 63), 1 << 63);
    assert_eq!(order_key(1.0f64.to_bits()), (1 << 63) + 0x3FF0_0000_0000_0000);
    assert_eq!(order_key((-1.0f64).to_bits()), (1 << 63) - 0x3FF0_0000_0000_0000);
    assert_eq!(order_key(u64::MAX), 1);
}

#[test]
fn the_closest_hit_goes_by_the_order_keys_of_the_ray_parameters() {
    let ts = [5.0f64, 0.25, 4.0, 0.25, 1e300, f64::INFINITY];
    let hits: Vec<Option<u64>> = ts.iter().map(|t| Some(order_key(t.to_bits()))).collect();
    assert_eq!(closest_hit(&hits), Some(1));
}

#[test]
fn the_depth_limit_is_reached_at_the_limit_and_beyond() {
    assert!(at_depth_limit(6, 6));
    assert!(at_depth_limit(7, 6));
    assert!(!at_depth_limit(5, 6));
    assert!(!at_depth_limit(0, 1));
    assert!(at_depth_limit(0, 0));
    assert!(at_depth_limit(0, -1));
    assert!(at_depth_limit(0, i32::MIN));
    assert!(!at_depth_limit(0, i32::MAX));
    assert!(at_depth_limit(usize::MAX, i32::MAX));
}

fn glass() -> Node {
    Node::Hit { kind: MaterialKind::Dielectric, reflects: true, refracts: true }
}

fn mirror() -> Node {
    Node::Hit { kind: MaterialKind::Mirror, reflects: true, refracts: false }
}

fn matte() -> Node {
    Node::Hit { kind: MaterialKind::Diffuse, reflects: false, refracts: false }
}

#[test]
fn a_walk_over_a_miss_is_over_at_once() {
    let mut walk = RayWalk::new(6);
    assert_eq!(walk.depth(), 0);
    assert!(!walk.at_limit());
    assert!(!walk.is_finished());
    assert_eq!(walk.advance(Node::Background), Next::Finished { levels: 0 });
    assert!(walk.is_finished());
    assert_eq!(walk.advance(glass()), Next::Finished { levels: 0 });
    assert!(walk.is_finished());
}

#[test]
fn a_diffuse_hit_sends_no_ray_on() {
    let mut walk = RayWalk::new(6);
    assert_eq!(walk.advance(matte()), Next::Finished { levels: 0 });
    let mut again = RayWalk::new(6);
    let eager = Node::Hit { kind: MaterialKind::Diffuse, reflects: true, refracts: true };
    assert_eq!(again.advance(eager), Next::Finished { levels: 0 });
}

#[test]
fn a_mirror_sends_its_reflection_only() {
    let mut walk = RayWalk::new(6);
    let eager = Node::Hit { kind: MaterialKind::Mirror, reflects: true, refracts: true };
    assert_eq!(walk.advance(eager), Next::Descend(Branch::Reflection));
    assert_eq!(walk.depth(), 1);
    assert_eq!(walk.advance(Node::Background), Next::Finished { levels: 1 });
    let mut dark = RayWalk::new(6);
    let none = Node::Hit { kind: MaterialKind::Mirror, reflects: false, refracts: true };
    assert_eq!(dark.advance(none), Next::Finished { levels: 0 });
}

#[test]
fn glass_sends_its_reflection_and_then_its_refraction() {
    let mut walk = RayWalk::new(6);
    assert_eq!(walk.advance(glass()), Next::Descend(Branch::Reflection));
    assert_eq!(walk.depth(), 1);
    assert_eq!(walk.advance(matte()), Next::Sibling { levels: 0 });
    assert_eq!(walk.depth(), 1);
    assert_eq!(walk.advance(Node::Background), Next::Finished { levels: 1 });
    assert!(walk.is_finished());
}

#[test]
fn glass_in_total_internal_reflection_sends_its_reflection_only() {
    let mut walk = RayWalk::new(6);
    let total = Node::Hit { kind: MaterialKind::Dielectric, reflects: true, refracts: false };
    assert_eq!(walk.advance(total), Next::Descend(Branch::Reflection));
    assert_eq!(walk.advance(Node::Background), Next::Finished { levels: 1 });
    let mut through = RayWalk::new(6);
    let only = Node::Hit { kind: MaterialKind::Dielectric, reflects: false, refracts: true };
    assert_eq!(through.advance(only), Next::Descend(Branch::Refraction));
    assert_eq!(through.advance(Node::Background), Next::Finished { levels: 1 });
}

#[test]
fn no_ray_is_sent_on_at_the_depth_limit() {
    let mut none = RayWalk::new(0);
    assert!(none.at_limit());
    assert_eq!(none.advance(glass()), Next::Finished { levels: 0 });
    let mut below = RayWalk::new(-3);
    assert!(below.at_limit());
    assert_eq!(below.advance(mirror()), Next::Finished { levels: 0 });
    let mut two = RayWalk::new(2);
    assert_eq!(two.advance(mirror()), Next::Descend(Branch::Reflection));
    assert!(!two.at_limit());
    assert_eq!(two.advance(mirror()), Next::Descend(Branch::Reflection));
    assert!(two.at_limit());
    assert_eq!(two.depth(), 2);
    assert_eq!(two.advance(mirror()), Next::Finished { levels: 2 });
}

#[test]
fn colours_are_handed_up_through_the_hits_that_wait() {
    let mut walk = RayWalk::new(8);
    assert_eq!(walk.advance(glass()), Next::Descend(Branch::Reflection));
    assert_eq!(walk.advance(mirror()), Next::Descend(Branch::Reflection));
    assert_eq!(walk.advance(mirror()), Next::Descend(Branch::Reflection));
    assert_eq!(walk.depth(), 3);
    assert_eq!(walk.advance(matte()), Next::Sibling { levels: 2 });
    assert_eq!(walk.depth(), 1);
    assert_eq!(walk.advance(mirror()), Next::Descend(Branch::Reflection));
    assert_eq!(walk.advance(Node::Background), Next::Finished { levels: 2 });
}

// A ray tree made up from a seed, with whole numbers for colours: what the
// walk gives is held against the plain recursive sum.
const PRIME: u64 = 1_000_000_007;
const BACKGROUND: u64 = 17;

fn mix(path: u64, salt: u64) -> u64 {
    let mut x = path.wrapping_mul(0x9E37_79B9_7F4A_7C15).wrapping_add(salt);
    x ^= x >> 29;
    x = x.wrapping_mul(0xBF58_476D_1CE4_E5B9);
    x ^= x >> 32;
    x
}

fn found(seed: u64, path: u64) -> Node {
    match mix(path, seed) % 5 {
        0 => Node::Background,
        1 => Node::Hit { kind: MaterialKind::Diffuse, reflects: false, refracts: false },
        2 => Node::Hit { kind: MaterialKind::Mirror, reflects: true, refracts: false },
        3 => Node::Hit { kind: MaterialKind::Dielectric, reflects: true, refracts: true },
        _ => Node::Hit {
            kind: MaterialKind::Dielectric,
            reflects: mix(path, seed + 1) % 2 == 0,
            refracts: mix(path, seed + 2) % 2 == 0,
        },
    }
}

fn own(seed: u64, path: u64) -> u64 {
    mix(path, seed + 3) % PRIME
}

fn weight(seed: u64, path: u64, branch: Branch) -> u64 {
    match branch {
        Branch::Reflection => mix(path, seed + 4) % PRIME,
        Branch::Refraction => mix(path, seed + 5) % PRIME,
    }
}

fn child(path: u64, branch: Branch) -> u64 {
    match branch {
        Branch::Reflection => 2 * path,
        Branch::Refraction => 2 * path + 1,
    }
}

fn recursive(seed: u64, path: u64, depth: usize, max: i32) -> u64 {
    if at_depth_limit(depth, max) {
        return BACKGROUND;
    }
    match found(seed, path) {
        Node::Background => BACKGROUND,
        Node::Hit { kind, reflects, refracts } => {
            let plan = kind.contributions();
            let mut colour = own(seed, path);
            if plan.reflection && reflects {
                let c = recursive(seed, child(path, Branch::Reflection), depth + 1, max);
                colour = (colour + weight(seed, path, Branch::Reflection) * c) % PRIME;
            }
            if plan.refraction && refracts {
                let c = recursive(seed, child(path, Branch::Refraction), depth + 1, max);
                colour = (colour + weight(seed, path, Branch::Refraction) * c) % PRIME;
            }
            colour
        }
    }
}

struct Waiting {
    path: u64,
    colour: u64,
    weight: u64,
}

fn walked(seed: u64, max: i32) -> (u64, usize, usize) {
    let mut walk = RayWalk::new(max);
    let mut waiting: Vec<Waiting> = Vec::new();
    let mut path: u64 = 1;
    let mut steps: usize = 0;
    let mut deepest: usize = 0;
    loop {
        assert_eq!(walk.depth(), waiting.len());
        deepest = deepest.max(waiting.len());
        let node = if walk.at_limit() { Node::Background } else { found(seed, path) };
        let mut colour = match node {
            Node::Background => BACKGROUND,
            Node::Hit { .. } => own(seed, path),
        };
        steps += 1;
        match walk.advance(node) {
            Next::Descend(branch) => {
                waiting.push(Waiting { path, colour, weight: weight(seed, path, branch) });
                path = child(path, branch);
            }
            Next::Sibling { levels } => {
                for _ in 0..levels {
                    let w = waiting.pop().unwrap();
                    colour = (w.colour + w.weight * colour) % PRIME;
                }
                let top = waiting.last_mut().unwrap();
                top.colour = (top.colour + top.weight * colour) % PRIME;
                top.weight = weight(seed, top.path, Branch::Refraction);
                path = child(top.path, Branch::Refraction);
            }
            Next::Finished { levels } => {
                for _ in 0..levels {
                    let w = waiting.pop().unwrap();
                    colour = (w.colour + w.weight * colour) % PRIME;
                }
                assert!(waiting.is_empty());
                assert!(walk.is_finished());
                return (colour, steps, deepest);
            }
        }
    }
}

#[test]
fn the_walk_gives_the_colour_of_the_recursive_sum() {
    for max in [-1, 0, 1, 2, 3, 6, 9] {
        for seed in 0..200u64 {
            let (colour, steps, deepest) = walked(seed * 7, max);
            assert_eq!(colour, recursive(seed * 7, 1, 0, max), "seed {seed} max {max}");
            let limit = max.max(0) as u32;
            assert!(steps <= (1usize << (limit + 1)) - 1, "seed {seed} max {max}");
            assert!(deepest <= limit as usize, "seed {seed} max {max}");
        }
    }
}

#[test]
fn a_hall_of_mirrors_ends_at_the_depth_limit() {
    let mut walk = RayWalk::new(5);
    let mut steps = 0;
    loop {
        steps += 1;
        match walk.advance(mirror()) {
            Next::Descend(branch) => assert_eq!(branch, Branch::Reflection),
            Next::Finished { levels } => {
                assert_eq!(levels, 5);
                break;
            }
            Next::Sibling { .. } => unreachable!(),
        }
    }
    assert_eq!(steps, 6);
}

#[test]
fn a_house_of_glass_looks_at_every_ray_once() {
    let mut walk = RayWalk::new(4);
    let mut steps = 0;
    let mut deepest = 0;
    while !walk.is_finished() {
        deepest = deepest.max(walk.depth());
        walk.advance(glass());
        steps += 1;
    }
    assert_eq!(steps, 31);
    assert_eq!(deepest, 4);
}

#[test]
fn the_same_finds_give_the_same_walk() {
    let finds = [glass(), mirror(), matte(), Node::Background, glass(), matte(), matte()];
    let mut first = RayWalk::new(3);
    let mut second = RayWalk::new(3);
    for node in finds {
        assert_eq!(first.advance(node), second.advance(node));
        assert_eq!(first.depth(), second.depth());
        assert_eq!(first.is_finished(), second.is_finished());
    }
    let hits = vec![Some(7), None, Some(7), Some(2)];
    assert_eq!(closest_hit(&hits), closest_hit(&hits.clone()));
}
