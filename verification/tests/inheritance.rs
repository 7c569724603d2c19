use java_class_parser::class_parser::keep_available;
use java_class_parser::{
    parse_bytes, Answer, Classpath, Error, ErrorKind, FQName, InheritKind, InheritanceGraph,
    Inspection, JavaClass, JavaClassParser, Lookup,
};
use std::collections::HashMap;

fn utf8(pool: &mut Vec<u8>, count: &mut u16, text: &str) -> u16 {
    pool.push(1);
    pool.extend_from_slice(&(text.len() as u16).to_be_bytes());
    pool.extend_from_slice(text.as_bytes());
    *count += 1;
    *count
}

fn class_ref(pool: &mut Vec<u8>, count: &mut u16, name: &str) -> u16 {
    let name = utf8(pool, count, name);
    pool.push(7);
    pool.extend_from_slice(&name.to_be_bytes());
    *count += 1;
    *count
}

fn class_bytes(this: &str, parent: &str, interfaces: &[&str]) -> Vec<u8> {
    let mut pool = vec![];
    let mut count = 0;
    let this = class_ref(&mut pool, &mut count, this);
    let parent = class_ref(&mut pool, &mut count, parent);
    let interfaces: Vec<u16> =
        interfaces.iter().map(|name| class_ref(&mut pool, &mut count, name)).collect();
    let mut out = vec![0xca, 0xfe, 0xba, 0xbe, 0, 0, 0, 52];
    out.extend_from_slice(&(count + 1).to_be_bytes());
    out.extend_from_slice(&pool);
    out.extend_from_slice(&[0, 1]);
    out.extend_from_slice(&this.to_be_bytes());
    out.extend_from_slice(&parent.to_be_bytes());
    out.extend_from_slice(&(interfaces.len() as u16).to_be_bytes());
    for index in interfaces {
        out.extend_from_slice(&index.to_be_bytes());
    }
    out.extend_from_slice(&[0, 0, 0, 0, 0, 0]);
    out
}

struct Resources {
    files: HashMap<String, Vec<u8>>,
    reads: Vec<String>,
}

impl Resources {
    fn new(classes: &[(&str, &str, &[&str])]) -> Self {
        let mut files = HashMap::new();
        for (this, parent, interfaces) in classes {
            files.insert(format!("{}.class", this), class_bytes(this, parent, interfaces));
        }
        Resources { files, reads: vec![] }
    }

    fn read(&mut self, path: &str) -> Lookup {
        self.reads.push(path.to_string());
        match self.files.get(path) {
            Some(bytes) => Lookup::Found(bytes.clone()),
            None => Lookup::Missing,
        }
    }
}

fn find(parser: &mut JavaClassParser, resources: &mut Resources, name: &str) -> Result<JavaClass, Error> {
    let path = match parser.find(FQName::new(name)) {
        Answer::Cached(class) => return Ok(class.clone()),
        Answer::Read(path) => path,
    };
    let found = resources.read(&path);
    parser.settle(FQName::new(name), found)?;
    Ok(parser.cached(FQName::new(name)).expect("settled").clone())
}

fn find_super(parser: &mut JavaClassParser, resources: &mut Resources, class: &JavaClass) -> Result<JavaClass, Error> {
    let name = class.super_name()?.to_fqname_buf();
    find(parser, resources, name.as_str())
}

fn find_interfaces(parser: &mut JavaClassParser, resources: &mut Resources, class: &JavaClass) -> Result<Vec<JavaClass>, Error> {
    let mut out = vec![];
    for name in class.interfaces()? {
        if let Some(found) = keep_available(find(parser, resources, name.as_str()))? {
            out.push(found);
        }
    }
    Ok(out)
}

fn inspect(class: &JavaClass, parser: &mut JavaClassParser, resources: &mut Resources) -> Result<InheritanceGraph, Error> {
    let mut inspection = Inspection::start(class.clone())?;
    while let Some(node) = inspection.next() {
        let class = inspection.class(node).expect("a node of the graph").clone();
        let parent = find_super(parser, resources, &class);
        inspection.record_super(node, parent)?;
        for interface in find_interfaces(parser, resources, &class)? {
            inspection.record_interface(node, interface)?;
        }
    }
    Ok(inspection.finish())
}

fn shapes() -> Resources {
    Resources::new(&[
        ("com/example/Square", "com/example/Rectangle", &["com/example/Shape"]),
        ("com/example/Rectangle", "java/lang/Object", &[]),
        ("com/example/Shape", "java/lang/Object", &[]),
    ])
}

fn names(found: &[(&JavaClass, InheritKind)]) -> Vec<(String, InheritKind)> {
    found.iter().map(|(class, kind)| (class.this().expect("a name").as_str().to_string(), *kind)).collect()
}

#[test]
fn parse_jar_parse_jar() {
    let mut resources = shapes();
    let mut parser = JavaClassParser::with_classpath(Classpath::from("java.jar"));
    let class = find(&mut parser, &mut resources, "com/example/Square").expect("couldn't get square");
    let super_class = find_super(&mut parser, &mut resources, &class)
        .expect("Square should have a super class that's on the classpath");
    assert_eq!(super_class.this().unwrap(), "com/example/Rectangle");
    assert!(
        matches!(find_super(&mut parser, &mut resources, &super_class), Err(_)),
        "Rectangle should have no available super class"
    );

    let inheritance = inspect(&class, &mut parser, &mut resources).expect("couldn't create graph");
    let parents = inheritance
        .inherits(class.this().unwrap())
        .expect("couldn't get parents")
        .into_iter()
        .map(|(class, _)| class.this().unwrap().to_fqname_buf())
        .collect::<Vec<_>>();
    assert_eq!(parents, ["com/example/Rectangle", "com/example/Shape"]);
}

#[test]
fn ancestors_come_with_their_kinds() {
    let mut resources = shapes();
    let mut parser = JavaClassParser::new("classes;java.jar");
    assert_eq!(*parser.classpath(), Classpath::from_iter(["classes", "java.jar"]));
    let class = find(&mut parser, &mut resources, "com/example/Square").unwrap();
    let graph = inspect(&class, &mut parser, &mut resources).unwrap();
    assert_eq!(graph.len(), 3);
    assert_eq!(graph.root(), "com/example/Square");
    assert_eq!(
        names(&graph.inherits(FQName::new("com/example/Square")).unwrap()),
        vec![
            ("com/example/Rectangle".to_string(), InheritKind::Extends),
            ("com/example/Shape".to_string(), InheritKind::Implements)
        ]
    );
    assert_eq!(names(&graph.inherits(FQName::new("com/example/Shape")).unwrap()), vec![]);
    let again = graph.inherits(FQName::new("com/example/Square")).unwrap();
    assert_eq!(names(&again), names(&graph.inherits(FQName::new("com/example/Square")).unwrap()));
    let missing = graph.inherits(FQName::new("java/lang/Object")).unwrap_err();
    assert!(matches!(missing.kind(), ErrorKind::NoClassFound(name) if name == "java/lang/Object"));
}

#[test]
fn classes_are_read_once() {
    let mut resources = shapes();
    let mut parser = JavaClassParser::new("java.jar");
    assert!(parser.cached(FQName::new("com/example/Square")).is_none());
    let first = find(&mut parser, &mut resources, "com/example/Square").unwrap();
    let second = find(&mut parser, &mut resources, "com/example/Square").unwrap();
    assert_eq!(resources.reads, vec!["com/example/Square.class"]);
    assert_eq!(first.this().unwrap(), second.this().unwrap());
    assert_eq!(first.raw().constant_pool.len(), second.raw().constant_pool.len());
    assert!(matches!(parser.find(FQName::new("com/example/Square")), Answer::Cached(_)));
    assert!(matches!(
        parser.find(FQName::new("com/example/Circle")),
        Answer::Read(path) if path == "com/example/Circle.class"
    ));
    assert_eq!(JavaClassParser::resource_path(FQName::new("a/B")), "a/B.class");
}

#[test]
fn lookups_that_fail_are_told_apart() {
    let mut parser = JavaClassParser::new("java.jar");
    let name = FQName::new("com/example/Circle");
    let missing = parser.settle(name, Lookup::Missing).unwrap_err();
    assert!(matches!(missing.kind(), ErrorKind::NoClassFound(n) if n == "com/example/Circle"));
    assert!(missing.is_not_found());
    let failed = parser.settle(name, Lookup::Failed("archive is damaged".to_string())).unwrap_err();
    assert!(matches!(failed.kind(), ErrorKind::Io(report) if report == "archive is damaged"));
    assert!(!failed.is_not_found());
    let unsupported = parser.settle(name, Lookup::Unsupported("notes.txt".to_string())).unwrap_err();
    assert!(matches!(unsupported.kind(), ErrorKind::UnsupportedEntry(entry) if entry == "notes.txt"));
    let broken = parser.settle(name, Lookup::Found(vec![0xca, 0xfe])).unwrap_err();
    assert!(matches!(broken.kind(), ErrorKind::MissingBytes(0)));
    assert!(parser.cached(name).is_none());
    parser
        .settle(name, Lookup::Found(class_bytes("com/example/Circle", "java/lang/Object", &[])))
        .expect("a class file");
    let kept = parser.cached(name).expect("kept").this().unwrap().to_fqname_buf();
    parser
        .settle(name, Lookup::Found(class_bytes("com/example/Other", "java/lang/Object", &[])))
        .expect("a class file");
    assert_eq!(parser.cached(name).expect("kept").this().unwrap(), kept);

    assert!(matches!(keep_available(Err(Error::new(ErrorKind::Io("x".to_string())))), Err(_)));
    assert!(matches!(keep_available(Err(missing)), Ok(None)));
    let class = parse_bytes(&class_bytes("A", "B", &[])).unwrap();
    assert!(matches!(keep_available(Ok(class)), Ok(Some(_))));
}

#[test]
fn interfaces_outside_the_class_path_are_left_out() {
    let mut resources = Resources::new(&[
        ("app/Main", "app/Base", &["java/lang/Runnable", "app/Task", "java/io/Closeable"]),
        ("app/Task", "java/lang/Object", &["java/lang/Runnable"]),
    ]);
    let mut parser = JavaClassParser::new("classes");
    let main = find(&mut parser, &mut resources, "app/Main").unwrap();
    let interfaces = find_interfaces(&mut parser, &mut resources, &main).unwrap();
    assert_eq!(interfaces.len(), 1);
    assert_eq!(interfaces[0].this().unwrap(), "app/Task");
    let graph = inspect(&main, &mut parser, &mut resources).unwrap();
    assert_eq!(
        names(&graph.inherits(FQName::new("app/Main")).unwrap()),
        vec![("app/Task".to_string(), InheritKind::Implements)]
    );
}

fn class(this: &str) -> JavaClass {
    parse_bytes(&class_bytes(this, "java/lang/Object", &[])).unwrap()
}

#[test]
fn walk_is_breadth_first_and_visits_once() {
    let mut graph = InheritanceGraph::new(class("A")).unwrap();
    for name in ["B", "C", "D", "E"] {
        assert!(graph.add_class(class(name)).unwrap());
    }
    assert!(!graph.add_class(class("C")).unwrap());
    let edge = |graph: &mut InheritanceGraph, from: &str, to: &str, kind| {
        graph.add_inheritance(FQName::new(from), FQName::new(to), kind)
    };
    assert!(edge(&mut graph, "A", "B", InheritKind::Extends));
    assert!(edge(&mut graph, "A", "C", InheritKind::Implements));
    assert!(edge(&mut graph, "B", "D", InheritKind::Extends));
    assert!(edge(&mut graph, "C", "D", InheritKind::Implements));
    assert!(edge(&mut graph, "C", "E", InheritKind::Implements));
    assert!(edge(&mut graph, "D", "A", InheritKind::Implements));
    assert!(edge(&mut graph, "B", "E", InheritKind::Implements));
    assert_eq!(
        names(&graph.inherits(FQName::new("A")).unwrap()),
        vec![
            ("B".to_string(), InheritKind::Extends),
            ("C".to_string(), InheritKind::Implements),
            ("D".to_string(), InheritKind::Extends),
            ("E".to_string(), InheritKind::Implements),
        ]
    );
    assert_eq!(
        names(&graph.inherits(FQName::new("C")).unwrap()),
        vec![
            ("D".to_string(), InheritKind::Implements),
            ("E".to_string(), InheritKind::Implements),
            ("A".to_string(), InheritKind::Implements),
            ("B".to_string(), InheritKind::Extends),
        ]
    );
    assert_eq!(names(&graph.inherits(FQName::new("E")).unwrap()), vec![]);
}

#[test]
fn edges_are_added_once_between_known_classes() {
    let mut graph = InheritanceGraph::new(class("A")).unwrap();
    assert!(graph.add_class(class("B")).unwrap());
    let a = FQName::new("A");
    let b = FQName::new("B");
    assert!(!graph.add_inheritance(a, FQName::new("Z"), InheritKind::Extends));
    assert!(!graph.add_inheritance(FQName::new("Z"), a, InheritKind::Extends));
    assert!(graph.add_inheritance(a, b, InheritKind::Extends));
    assert!(!graph.add_inheritance(a, b, InheritKind::Extends));
    assert!(graph.add_inheritance(a, b, InheritKind::Implements));
    assert!(graph.add_inheritance(b, a, InheritKind::Extends));
    assert!(graph.add_inheritance(a, a, InheritKind::Implements));
    assert!(!graph.add_edge(0, 2, InheritKind::Extends));
    assert!(!graph.add_edge(2, 0, InheritKind::Extends));
    assert_eq!(graph.node_of(b), Some(1));
    assert_eq!(graph.node_of(FQName::new("Z")), None);
    assert_eq!(graph.get_name(1).unwrap(), "B");
    assert!(graph.get_name(2).is_none());
    assert_eq!(graph.get_class(0).unwrap().this().unwrap(), "A");
    assert!(graph.get_class(2).is_none());
    assert_eq!(
        names(&graph.inherits(a).unwrap()),
        vec![("B".to_string(), InheritKind::Extends)]
    );
}

#[test]
fn inspection_rejects_what_it_cannot_link() {
    let mut inspection = Inspection::start(class("A")).unwrap();
    let node = inspection.next().expect("the root");
    assert_eq!(node, 0);
    assert!(inspection.next().is_none());
    inspection.record_interface(node, class("I")).unwrap();
    let twice = inspection.record_interface(node, class("I")).unwrap_err();
    assert!(matches!(twice.kind(), ErrorKind::AddingInheritanceFailed(name) if name == "A"));
    inspection.record_super(node, Ok(class("I"))).expect("another kind of edge");
    inspection
        .record_super(node, Err(Error::new(ErrorKind::NoClassFound(FQName::new("S").to_owned()))))
        .expect("no further ancestor");
    let failed = inspection.record_super(node, Err(Error::new(ErrorKind::Io("gone".to_string()))));
    assert!(matches!(failed.unwrap_err().kind(), ErrorKind::Io(_)));
    assert_eq!(inspection.next(), Some(1));
    assert!(inspection.class(1).is_some());
    assert!(inspection.class(2).is_none());
    let nameless = parse_bytes(&[
        0xca, 0xfe, 0xba, 0xbe, 0, 0, 0, 52, 0, 1, 0, 1, 0, 5, 0, 0, 0, 0, 0, 0, 0, 0, 0, 0,
    ])
    .unwrap();
    assert!(matches!(
        Inspection::start(nameless.clone()).map(|_| ()).unwrap_err().kind(),
        ErrorKind::InvalidReference(5)
    ));
    assert!(matches!(
        inspection.record_interface(1, nameless).unwrap_err().kind(),
        ErrorKind::InvalidReference(5)
    ));
    let graph = inspection.finish();
    assert_eq!(graph.len(), 2);
}
