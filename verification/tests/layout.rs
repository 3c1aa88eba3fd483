use ruwabar::canvas::Canvas;
use ruwabar::canvas::CanvasError;
use ruwabar::modules::ColorModule;
use ruwabar::modules::Module;
use ruwabar::modules::ModulePosition;
use ruwabar::modules::Modules;
use ruwabar::modules::SpacingModule;

const BG: u32 = 0xff00_0000;

enum Item {
    Space(SpacingModule),
    Color(ColorModule),
}

impl Module for Item {
    fn get_width(&self) -> u32 {
        match self {
            Item::Space(module) => module.get_width(),
            Item::Color(module) => module.get_width(),
        }
    }

    fn draw(&self, canvas: &mut Canvas) {
        match self {
            Item::Space(module) => module.draw(canvas),
            Item::Color(module) => module.draw(canvas),
        }
    }
}

struct Greedy {
    width: u32,
    color: u32,
}

impl Module for Greedy {
    fn get_width(&self) -> u32 {
        self.width
    }

    fn draw(&self, canvas: &mut Canvas) {
        canvas.fill_rect(0, 0, 10_000, 10_000, self.color);
        canvas.fill_oval(0, 0, 500, 500, self.color);
        canvas.draw_line(0, 0, 900, 0, self.color);
        for x in 0..200 {
            for y in 0..50 {
                canvas.set_pixel(x, y, self.color);
            }
        }
    }
}

struct Probe {
    width: u32,
}

impl Module for Probe {
    fn get_width(&self) -> u32 {
        self.width
    }

    fn draw(&self, canvas: &mut Canvas) {
        let (w, h) = (canvas.width(), canvas.height());
        assert_eq!(w, self.width);
        canvas.set_pixel(0, 0, w);
        canvas.set_pixel(w - 1, h - 1, h);
        assert_eq!(canvas.get_pixel(w, 0), None);
    }
}

#[test]
fn modules_keep_insertion_order() {
    let modules = Modules::new()
        .add(ColorModule { width: 3, color: 1 })
        .add(ColorModule { width: 4, color: 2 });
    assert_eq!(modules.len(), 2);
    assert_eq!(modules.get(0).map(|m| (m.width, m.color)), Some((3, 1)));
    assert_eq!(modules.get(1).map(|m| (m.width, m.color)), Some((4, 2)));
    assert!(modules.get(2).is_none());
    let empty: Modules<SpacingModule> = Modules::new();
    assert_eq!(empty.len(), 0);
    assert!(empty.get(0).is_none());
}

#[test]
fn modules_fit_up_to_their_total_width() {
    let modules = Modules::new()
        .add(SpacingModule { width: 5 })
        .add(SpacingModule { width: 40 })
        .add(SpacingModule { width: 5 })
        .add(SpacingModule { width: 40 });
    assert!(modules.fits(90));
    assert!(modules.fits(91));
    assert!(!modules.fits(89));
    assert!(!modules.fits(0));
    let huge = Modules::new()
        .add(SpacingModule { width: u32::MAX })
        .add(SpacingModule { width: u32::MAX });
    assert!(!huge.fits(u32::MAX));
    let empty: Modules<SpacingModule> = Modules::new();
    assert!(empty.fits(0));
}

#[test]
fn module_widths_and_drawing() {
    let spacing = SpacingModule { width: 5 };
    let color = ColorModule { width: 40, color: 0xffff_0018 };
    assert_eq!(spacing.get_width(), 5);
    assert_eq!(color.get_width(), 40);
    let mut canvas = Canvas::new(3, 2, BG);
    spacing.draw(&mut canvas);
    assert_eq!(canvas.pixels(), &vec![BG; 6]);
    color.draw(&mut canvas);
    assert_eq!(canvas.pixels(), &vec![0xffff_0018; 6]);
}

#[test]
fn draw_modules_lays_out_left_to_right() {
    let modules = Modules::new()
        .add(Item::Space(SpacingModule { width: 5 }))
        .add(Item::Color(ColorModule { width: 40, color: 0xffff_0018 }))
        .add(Item::Space(SpacingModule { width: 5 }))
        .add(Item::Color(ColorModule { width: 40, color: 0xff00_ff18 }));
    let mut canvas = Canvas::new(100, 4, BG);
    assert_eq!(canvas.draw_modules(&modules, ModulePosition::Left), Ok(()));
    for y in 0..4 {
        for x in 0..100 {
            let expected = match x {
                0..=4 => BG,
                5..=44 => 0xffff_0018,
                45..=49 => BG,
                50..=89 => 0xff00_ff18,
                _ => BG,
            };
            assert_eq!(canvas.get_pixel(x, y), Some(expected));
        }
    }
}

#[test]
fn draw_modules_hands_each_module_its_own_viewport() {
    let modules = Modules::new()
        .add(Probe { width: 5 })
        .add(Probe { width: 40 })
        .add(Probe { width: 5 })
        .add(Probe { width: 40 });
    let mut canvas = Canvas::new(95, 3, BG);
    assert_eq!(canvas.draw_modules(&modules, ModulePosition::Left), Ok(()));
    let starts: Vec<u32> = (0..95).filter(|x| canvas.get_pixel(*x, 0) != Some(BG)).collect();
    assert_eq!(starts, vec![0, 5, 45, 50]);
    let widths: Vec<u32> = starts.iter().map(|x| canvas.get_pixel(*x, 0).unwrap()).collect();
    assert_eq!(widths, vec![5, 40, 5, 40]);
    let ends: Vec<u32> = (0..95).filter(|x| canvas.get_pixel(*x, 2) != Some(BG)).collect();
    assert_eq!(ends, vec![4, 44, 49, 89]);
    assert_eq!(starts[3] + widths[3], 90);
    assert_eq!(canvas.width(), 95);
    assert_eq!(canvas.height(), 3);
}

#[test]
fn draw_modules_keeps_each_module_inside_its_viewport() {
    let modules = Modules::new()
        .add(Greedy { width: 3, color: 1 })
        .add(Greedy { width: 0, color: 2 })
        .add(Greedy { width: 4, color: 3 });
    let mut canvas = Canvas::new(10, 3, BG);
    assert_eq!(canvas.draw_modules(&modules, ModulePosition::Left), Ok(()));
    for y in 0..3 {
        for x in 0..10 {
            let expected = match x {
                0..=2 => 1,
                3..=6 => 3,
                _ => BG,
            };
            assert_eq!(canvas.get_pixel(x, y), Some(expected));
        }
    }
}

#[test]
fn draw_modules_writes_through_one_viewport_leave_the_other_alone() {
    let first = Modules::new()
        .add(Item::Color(ColorModule { width: 4, color: 7 }))
        .add(Item::Space(SpacingModule { width: 4 }));
    let second = Modules::new()
        .add(Item::Space(SpacingModule { width: 4 }))
        .add(Item::Color(ColorModule { width: 4, color: 9 }));
    let mut canvas = Canvas::new(8, 2, BG);
    assert_eq!(canvas.draw_modules(&first, ModulePosition::Left), Ok(()));
    assert_eq!(canvas.pixels(), &vec![7, 7, 7, 7, BG, BG, BG, BG, 7, 7, 7, 7, BG, BG, BG, BG]);
    assert_eq!(canvas.draw_modules(&second, ModulePosition::Left), Ok(()));
    assert_eq!(canvas.pixels(), &vec![7, 7, 7, 7, 9, 9, 9, 9, 7, 7, 7, 7, 9, 9, 9, 9]);
}

#[test]
fn draw_modules_turns_down_other_positions() {
    let modules = Modules::new().add(ColorModule { width: 2, color: 1 });
    let mut canvas = Canvas::new(4, 2, BG);
    assert_eq!(
        canvas.draw_modules(&modules, ModulePosition::Center),
        Err(CanvasError::UnsupportedLayout)
    );
    assert_eq!(
        canvas.draw_modules(&modules, ModulePosition::Right),
        Err(CanvasError::UnsupportedLayout)
    );
    assert_eq!(canvas.pixels(), &vec![BG; 8]);
}

#[test]
fn draw_modules_turns_down_a_run_wider_than_the_canvas() {
    let modules = Modules::new()
        .add(ColorModule { width: 2, color: 1 })
        .add(ColorModule { width: 3, color: 2 });
    let mut canvas = Canvas::new(4, 2, BG);
    assert_eq!(
        canvas.draw_modules(&modules, ModulePosition::Left),
        Err(CanvasError::InvalidGeometry)
    );
    assert_eq!(canvas.pixels(), &vec![BG; 8]);
    let mut canvas = Canvas::new(5, 2, BG);
    assert_eq!(canvas.draw_modules(&modules, ModulePosition::Left), Ok(()));
    assert_eq!(canvas.pixels(), &vec![1, 1, 2, 2, 2, 1, 1, 2, 2, 2]);
}

#[test]
fn draw_modules_with_no_module_changes_nothing() {
    let modules: Modules<ColorModule> = Modules::new();
    let mut canvas = Canvas::new(4, 2, BG);
    assert_eq!(canvas.draw_modules(&modules, ModulePosition::Left), Ok(()));
    assert_eq!(canvas.pixels(), &vec![BG; 8]);
}
