use rays::ray::Ray;
use rays::vec3::{Vec3, Point};
use rays::SCALE;

const S: i128 = SCALE;

#[test]
fn test_at() {
    let origin = Point::zeros();
    let dir = Vec3::new(S, 2 * S, 3 * S);
    let r = Ray::new(origin, dir);
    assert_eq!(r.at(S), Point::new(S, 2 * S, 3 * S));
}

#[test]
fn test_at_negative() {
    let r = Ray::new(Point::new(S, 0, 0), Vec3::new(S, 0, 0));
    assert_eq!(r.at(-S), Point::new(0, 0, 0));
}
