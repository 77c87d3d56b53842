use ufmt::{uDebug, uWrite, Formatter};

struct Unit;

impl uDebug for Unit {
    fn fmt<W: uWrite>(&self, f: &mut Formatter<'_, W>) -> Result<(), W::Error> {
        f.debug_struct("Unit")?.finish()
    }
}

struct Point {
    x: i32,
    y: i32,
}

impl uDebug for Point {
    fn fmt<W: uWrite>(&self, f: &mut Formatter<'_, W>) -> Result<(), W::Error> {
        f.debug_struct("Point")?.field("x", &self.x)?.field("y", &self.y)?.finish()
    }
}

struct Line {
    from: Point,
    to: Point,
}

impl uDebug for Line {
    fn fmt<W: uWrite>(&self, f: &mut Formatter<'_, W>) -> Result<(), W::Error> {
        f.debug_struct("Line")?.field("from", &self.from)?.field("to", &self.to)?.finish()
    }
}

fn plain<T: uDebug>(value: &T) -> String {
    let mut s = String::new();
    {
        let mut f = Formatter::new(&mut s);
        uDebug::fmt(value, &mut f).unwrap();
    }
    s
}

fn pretty<T: uDebug>(value: &T) -> String {
    let mut s = String::new();
    {
        let mut f = Formatter::new(&mut s);
        f.pretty(value).unwrap();
    }
    s
}

#[test]
fn a_record_without_fields_is_its_name() {
    assert_eq!(plain(&Unit), "Unit");
    assert_eq!(pretty(&Unit), "Unit");
}

#[test]
fn a_record_of_two_fields() {
    let p = Point { x: 1, y: 2 };
    assert_eq!(plain(&p), "Point { x: 1, y: 2 }");
    assert_eq!(pretty(&p), "Point {\n    x: 1,\n    y: 2,\n}");
}

#[test]
fn nested_records_indent_by_depth() {
    let l = Line { from: Point { x: 1, y: -2 }, to: Point { x: 3, y: 4 } };
    assert_eq!(plain(&l), "Line { from: Point { x: 1, y: -2 }, to: Point { x: 3, y: 4 } }");
    assert_eq!(
        pretty(&l),
        "Line {\n    from: Point {\n        x: 1,\n        y: -2,\n    },\n    to: Point {\n        x: 3,\n        y: 4,\n    },\n}"
    );
}

struct Pair(i32, u8);

impl uDebug for Pair {
    fn fmt<W: uWrite>(&self, f: &mut Formatter<'_, W>) -> Result<(), W::Error> {
        f.debug_tuple("Pair")?.field(&self.0)?.field(&self.1)?.finish()
    }
}

struct Marker;

impl uDebug for Marker {
    fn fmt<W: uWrite>(&self, f: &mut Formatter<'_, W>) -> Result<(), W::Error> {
        f.debug_tuple("Marker")?.finish()
    }
}

struct Wrapper(Point);

impl uDebug for Wrapper {
    fn fmt<W: uWrite>(&self, f: &mut Formatter<'_, W>) -> Result<(), W::Error> {
        f.debug_tuple("Wrapper")?.field(&self.0)?.finish()
    }
}

struct Ids(Vec<u16>);

impl uDebug for Ids {
    fn fmt<W: uWrite>(&self, f: &mut Formatter<'_, W>) -> Result<(), W::Error> {
        f.debug_set()?.entries(&self.0)?.finish()
    }
}

struct Table(Vec<(u8, Point)>);

impl uDebug for Table {
    fn fmt<W: uWrite>(&self, f: &mut Formatter<'_, W>) -> Result<(), W::Error> {
        f.debug_map()?.entries(&self.0)?.finish()
    }
}

struct Mixed {
    a: u8,
    b: i64,
}

impl uDebug for Mixed {
    fn fmt<W: uWrite>(&self, f: &mut Formatter<'_, W>) -> Result<(), W::Error> {
        f.debug_map()?.entry(&1u8, &self.a)?.entry(&2u8, &self.b)?.finish()
    }
}

#[test]
fn tuples() {
    assert_eq!(plain(&Pair(-1, 2)), "Pair(-1, 2)");
    assert_eq!(pretty(&Pair(-1, 2)), "Pair(\n    -1,\n    2,\n)");
    assert_eq!(plain(&Marker), "Marker");
    assert_eq!(pretty(&Marker), "Marker");
    let w = Wrapper(Point { x: 1, y: 2 });
    assert_eq!(plain(&w), "Wrapper(Point { x: 1, y: 2 })");
    assert_eq!(pretty(&w), "Wrapper(\n    Point {\n        x: 1,\n        y: 2,\n    },\n)");
}

#[test]
fn lists_of_values() {
    let empty: Vec<u8> = vec![];
    assert_eq!(plain(&empty), "[]");
    assert_eq!(pretty(&empty), "[]");
    assert_eq!(plain(&vec![7u8]), "[7]");
    assert_eq!(plain(&vec![1u8, 2, 3]), "[1, 2, 3]");
    assert_eq!(pretty(&vec![1u8, 2, 3]), "[\n    1,\n    2,\n    3,\n]");
    assert_eq!(plain(&[1i16, -2]), "[1, -2]");
    let slice: &[u32] = &[4, 5];
    assert_eq!(plain(&slice), "[4, 5]");
    assert_eq!(plain(&Box::new(9u64)), "9");
    let nested = vec![vec![1u8], vec![], vec![2, 3]];
    assert_eq!(plain(&nested), "[[1], [], [2, 3]]");
    assert_eq!(
        pretty(&nested),
        "[\n    [\n        1,\n    ],\n    [],\n    [\n        2,\n        3,\n    ],\n]"
    );
}

#[test]
fn list_entries_one_by_one() {
    let mut s = String::new();
    {
        let mut f = Formatter::new(&mut s);
        f.debug_list().unwrap().entry(&1u8).unwrap().entries(&[2u8, 3]).unwrap().entry(&4u8).unwrap().finish().unwrap();
    }
    assert_eq!(s, "[1, 2, 3, 4]");
}

#[test]
fn sets() {
    assert_eq!(plain(&Ids(vec![])), "{}");
    assert_eq!(pretty(&Ids(vec![])), "{}");
    assert_eq!(plain(&Ids(vec![1, 2])), "{1, 2}");
    assert_eq!(pretty(&Ids(vec![1, 2])), "{\n    1,\n    2,\n}");
}

#[test]
fn mappings() {
    assert_eq!(plain(&Table(vec![])), "{}");
    assert_eq!(pretty(&Table(vec![])), "{}");
    let t = Table(vec![(1, Point { x: 1, y: 2 }), (2, Point { x: 3, y: 4 })]);
    assert_eq!(plain(&t), "{1: Point { x: 1, y: 2 }, 2: Point { x: 3, y: 4 }}");
    assert_eq!(
        pretty(&t),
        "{\n    1: Point {\n        x: 1,\n        y: 2,\n    },\n    2: Point {\n        x: 3,\n        y: 4,\n    },\n}"
    );
    assert_eq!(plain(&Mixed { a: 5, b: -6 }), "{1: 5, 2: -6}");
}

#[test]
fn pretty_is_switched_off_again() {
    let mut s = String::new();
    {
        let mut f = Formatter::new(&mut s);
        let p = Point { x: 1, y: 2 };
        f.pretty(&p).unwrap();
        f.write_char(' ').unwrap();
        uDebug::fmt(&p, &mut f).unwrap();
    }
    assert_eq!(s, "Point {\n    x: 1,\n    y: 2,\n} Point { x: 1, y: 2 }");
}

/// A destination that refuses every write after the first `room`.
struct Short {
    room: usize,
    attempts: usize,
    text: String,
}

impl uWrite for Short {
    type Error = ();

    fn write_str(&mut self, s: &str) -> Result<(), ()> {
        self.attempts += 1;
        if self.attempts > self.room {
            return Err(());
        }
        self.text.push_str(s);
        Ok(())
    }
}

#[test]
fn a_refused_write_ends_the_record() {
    // Point, " {", " ", x, ": ", 1, ",", " ", y, ": ", 2, " ", "}"
    let fragments = ["Point", " {", " ", "x", ": ", "1", ",", " ", "y", ": ", "2", " ", "}"];
    let p = Point { x: 1, y: 2 };
    for room in 0..fragments.len() {
        let mut w = Short { room, attempts: 0, text: String::new() };
        let r = {
            let mut f = Formatter::new(&mut w);
            uDebug::fmt(&p, &mut f)
        };
        assert_eq!(r, Err(()));
        assert_eq!(w.attempts, room + 1);
        assert_eq!(w.text, fragments[..room].concat());
    }
    let mut w = Short { room: fragments.len(), attempts: 0, text: String::new() };
    let r = {
        let mut f = Formatter::new(&mut w);
        uDebug::fmt(&p, &mut f)
    };
    assert_eq!(r, Ok(()));
    assert_eq!(w.attempts, fragments.len());
}

#[test]
fn write_char_encodes_as_utf8() {
    let mut s = String::new();
    {
        let mut f = Formatter::new(&mut s);
        f.write_char('a').unwrap();
        f.write_char('ß').unwrap();
        f.write_char('€').unwrap();
        f.write_char('😀').unwrap();
    }
    assert_eq!(s, "aß€😀");
    let mut t = String::new();
    uWrite::write_char(&mut t, 'é').unwrap();
    uWrite::write_str(&mut t, "tat").unwrap();
    assert_eq!(t, "état");
}

struct Deep(u32);

impl uDebug for Deep {
    fn fmt<W: uWrite>(&self, f: &mut Formatter<'_, W>) -> Result<(), W::Error> {
        if self.0 == 0 {
            f.write_str("x")
        } else {
            f.debug_tuple("D")?.field(&Deep(self.0 - 1))?.finish()
        }
    }
}

#[test]
fn indentation_is_counted_up_to_255_levels() {
    let levels = 300;
    let text = pretty(&Deep(levels));
    let lines: Vec<&str> = text.lines().collect();
    assert_eq!(lines.len(), 2 * levels as usize + 1);
    for (i, line) in lines.iter().enumerate() {
        let level = if i <= levels as usize { i } else { 2 * levels as usize - i };
        let indent = line.len() - line.trim_start_matches(' ').len();
        assert_eq!(indent, 4 * level.min(255));
    }
    assert_eq!(lines[0], "D(");
    assert_eq!(lines[lines.len() - 1], ")");
    assert_eq!(plain(&Deep(3)), "D(D(D(x)))");
}
