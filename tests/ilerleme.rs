use paket_yoneticisi::ilerleme::ProgressBar;

#[test]
fn test_progress_bar() {
    let mut progress_bar = ProgressBar::new(100, 50);
    progress_bar.set_message("İşlem Devam Ediyor");
    for i in 0..100 {
        progress_bar.update(1);
        let c = progress_bar.draw();
        assert_eq!(c.dolu_sayisi + c.bos_sayisi, 50);
        assert_eq!(c.yuzde, Some(i + 1));
        if i == 50 {
            progress_bar.set_message("Yarısına Gelindi");
        }
    }
    assert_eq!(progress_bar.draw().mesaj, "Yarısına Gelindi: ");
    assert_eq!(progress_bar.finish(), "\n");
}

#[test]
fn test_custom_progress_bar() {
    let mut progress_bar = ProgressBar::with_config(200, 30, '=', '.', true, true);
    progress_bar.set_message("Özel Çubuk Testi");
    for _ in 0..200 {
        progress_bar.update(1);
    }
    let c = progress_bar.draw();
    assert_eq!((c.dolu_sayisi, c.bos_sayisi, c.yuzde, c.sure_goster), (30, 0, Some(100), true));
    assert_eq!(progress_bar.finish(), "\n");
}

#[test]
fn test_set_current_progress_bar() {
    let mut progress_bar = ProgressBar::new(100, 40);
    progress_bar.set_message("Doğrudan Ayarlama Testi");
    progress_bar.set_current(30);
    assert_eq!(progress_bar.draw().dolu_sayisi, 12);
    progress_bar.set_current(70);
    assert_eq!(progress_bar.draw().dolu_sayisi, 28);
    progress_bar.set_current(100);
    assert_eq!(progress_bar.draw().dolu_sayisi, 40);
    assert_eq!(progress_bar.finish(), "\n");
}

#[test]
fn test_no_percentage_progress_bar() {
    let mut progress_bar = ProgressBar::with_config(100, 30, '*', '-', false, true);
    progress_bar.set_message("Yüzdesiz Çubuk");
    for _ in 0..100 {
        progress_bar.update(1);
    }
    let c = progress_bar.draw();
    assert_eq!(c.yuzde, None);
    assert_eq!(c.dolu_sayisi, 30);
    assert_eq!(progress_bar.finish(), "\n");
}

#[test]
fn test_zero_total_progress_bar() {
    let mut progress_bar = ProgressBar::new(0, 30);
    progress_bar.set_message("Sıfır Toplam Testi");
    for _ in 0..50 {
        progress_bar.update(1);
    }
    let c = progress_bar.draw();
    assert_eq!((c.dolu_sayisi, c.bos_sayisi, c.yuzde), (0, 30, Some(0)));
    assert_eq!(progress_bar.finish(), "\n");
}

#[test]
fn progress_past_the_total_fills_the_bar() {
    let mut progress_bar = ProgressBar::new(10, 20);
    progress_bar.set_current(25);
    let c = progress_bar.draw();
    assert_eq!((c.dolu_sayisi, c.bos_sayisi, c.yuzde), (20, 0, Some(250)));
}
